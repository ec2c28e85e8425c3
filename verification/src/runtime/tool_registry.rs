//! Which tools an agent gets, and how a call the model makes is run against
//! the state the agent keeps for each tool.

use vstd::prelude::*;
use vstd::string::*;

use crate::json::{check_json, json_kind_of, json_parse_error, JsonKind, EMPTY_OBJECT};
use crate::openrouter::types::{Message, MessageView, ToolCall};
use crate::runtime::agent_config::{ToolConfig, ToolConfigView, ToolSettings, ToolSettingsView, tool_configs_view};
use crate::text::{all_space, is_blank, join, joined, lemma_seq_less_irreflexive, lemma_seq_less_total,
    lemma_seq_less_transitive, seq_less, str_eq, str_less, strings_view, lemma_strings_view_push,
};
use crate::tools::tool::{tool_error_text, Tool, ToolContext, ToolError, ToolOutput, ToolState};

verus! {

/// Why an agent's `tools` block could not be turned into a set of tools it
/// can call. Every one of these stops the agent being configured.
#[derive(Debug, Clone)]
pub enum ToolSettingsError {
    UnknownTool { name: String, available: String },
    DuplicateToolConfig(String),
    InvalidToolConfig { tool: String, error: String },
}

pub enum ToolSettingsErrorView {
    UnknownTool { name: Seq<char>, available: Seq<char> },
    DuplicateToolConfig(Seq<char>),
    InvalidToolConfig { tool: Seq<char>, error: Seq<char> },
}

impl View for ToolSettingsError {
    type V = ToolSettingsErrorView;

    open spec fn view(&self) -> ToolSettingsErrorView {
        match self {
            ToolSettingsError::UnknownTool { name, available } => ToolSettingsErrorView::UnknownTool {
                name: name@,
                available: available@,
            },
            ToolSettingsError::DuplicateToolConfig(t) => ToolSettingsErrorView::DuplicateToolConfig(
                t@,
            ),
            ToolSettingsError::InvalidToolConfig { tool, error } => ToolSettingsErrorView::InvalidToolConfig {
                tool: tool@,
                error: error@,
            },
        }
    }
}

pub open spec fn tool_settings_error_text(e: ToolSettingsErrorView) -> Seq<char> {
    match e {
        ToolSettingsErrorView::UnknownTool { name, available } => "`"@ + name
            + "` is not a tool. the tools you can enable are: "@ + available,
        ToolSettingsErrorView::DuplicateToolConfig(t) => "more than one config for `"@ + t + "`"@,
        ToolSettingsErrorView::InvalidToolConfig { tool, error } => "the config for `"@ + tool
            + "` is not usable: "@ + error,
    }
}

impl ToolSettingsError {
    pub fn message(&self) -> (r: String)
        ensures
            r@ == tool_settings_error_text(self@),
    {
        match self {
            ToolSettingsError::UnknownTool { name, available } => {
                let mut r = "`".to_owned();
                r.append(name.as_str());
                r.append("` is not a tool. the tools you can enable are: ");
                r.append(available.as_str());
                r
            },
            ToolSettingsError::DuplicateToolConfig(t) => {
                let mut r = "more than one config for `".to_owned();
                r.append(t.as_str());
                r.append("`");
                r
            },
            ToolSettingsError::InvalidToolConfig { tool, error } => {
                let mut r = "the config for `".to_owned();
                r.append(tool.as_str());
                r.append("` is not usable: ");
                r.append(error.as_str());
                r
            },
        }
    }
}

// Results ///////////////////////////
//////////////////////////////////////

/// What a tool message carries for output that said nothing: some providers
/// reject a tool message with nothing in it.
pub open spec fn placeholder_text(content: Seq<char>) -> Seq<char> {
    if all_space(content) {
        "(no output)"@
    } else {
        content
    }
}

pub fn content_or_placeholder(content: String) -> (r: String)
    ensures
        r@ == placeholder_text(content@),
{
    if is_blank(content.as_str()) {
        "(no output)".to_owned()
    } else {
        content
    }
}

/// What running one tool call came to: the message that answers it, and
/// whether the tool asked for the turn to end.
#[derive(Debug, Clone)]
pub struct ToolResult {
    message: Message,
    ends_turn: bool,
}

impl ToolResult {
    pub closed spec fn spec_message(&self) -> MessageView {
        self.message@
    }

    pub closed spec fn spec_ends_turn(&self) -> bool {
        self.ends_turn
    }

    /// The answer to `call` made of what the tool said.
    pub fn new(call: &ToolCall, output: ToolOutput) -> (r: ToolResult)
        ensures
            r.spec_message() == (MessageView::Tool {
                tool_call_id: call.id@,
                content: placeholder_text(output.spec_content()),
            }),
            r.spec_ends_turn() == output.spec_ends_turn(),
    {
        let content = content_or_placeholder(output.content());
        ToolResult {
            message: Message::tool(call.id.as_str(), content.as_str()),
            ends_turn: output.ends_turn(),
        }
    }

    /// A call that could not be run, said in a way the model can act on. It
    /// never ends the turn: the agent is meant to try again.
    pub fn error(call: &ToolCall, error: &str) -> (r: ToolResult)
        ensures
            r.spec_message() == (MessageView::Tool {
                tool_call_id: call.id@,
                content: "error: "@ + error@,
            }),
            !r.spec_ends_turn(),
    {
        let mut content = "error: ".to_owned();
        content.append(error);
        ToolResult { message: Message::tool(call.id.as_str(), content.as_str()), ends_turn: false }
    }

    pub fn message(&self) -> (r: Message)
        ensures
            r@ == self.spec_message(),
    {
        self.message.duplicate()
    }

    pub fn ends_turn(&self) -> (r: bool)
        ensures
            r == self.spec_ends_turn(),
    {
        self.ends_turn
    }
}

// Arguments /////////////////////////
//////////////////////////////////////

/// What the arguments the model sent come to, or why they are refused. They
/// arrive as a json document encoded in a string. A call that takes none
/// regularly arrives as `""` or `null`, and neither is worth making the model
/// recover from, so both read as `{}`. Anything else has to be a json object.
pub open spec fn arguments_outcome(raw: Seq<char>) -> Result<Seq<char>, Seq<char>> {
    if all_space(raw) {
        Ok(EMPTY_OBJECT@)
    } else {
        match json_parse_error(raw) {
            Some(e) => Err("arguments were not valid json: "@ + e),
            None => match json_kind_of(raw) {
                Some(JsonKind::Null) => Ok(EMPTY_OBJECT@),
                Some(JsonKind::Object) => Ok(raw),
                _ => Err("arguments must be a json object"@),
            },
        }
    }
}

/// Reads the arguments the model sent.
pub fn parse_arguments(raw: &str) -> (r: Result<String, String>)
    ensures
        match r {
            Ok(t) => arguments_outcome(raw@) == Ok::<Seq<char>, Seq<char>>(t@),
            Err(e) => arguments_outcome(raw@) == Err::<Seq<char>, Seq<char>>(e@),
        },
{
    if is_blank(raw) {
        return Ok(EMPTY_OBJECT.to_owned());
    }
    match check_json(raw) {
        Err(e) => {
            let mut m = "arguments were not valid json: ".to_owned();
            m.append(e.as_str());
            Err(m)
        },
        Ok(JsonKind::Null) => Ok(EMPTY_OBJECT.to_owned()),
        Ok(JsonKind::Object) => Ok(raw.to_owned()),
        Ok(_) => Err("arguments must be a json object".to_owned()),
    }
}

// Tool states ///////////////////////
//////////////////////////////////////

/// Names in strictly ascending order, so each appears once.
pub open spec fn strictly_sorted(names: Seq<Seq<char>>) -> bool {
    forall|i: int, j: int| 0 <= i < j < names.len() ==> seq_less(names[i], names[j])
}

/// What each tool holds for one agent. Owned by that agent and never shared,
/// so a state needs no lock and closes whatever it opened when it is dropped.
/// A state is started the first time the agent calls its tool, not before.
pub struct ToolStates<S> {
    states: Vec<(String, S)>,
}

pub open spec fn state_names<S>(states: Seq<(String, S)>) -> Seq<Seq<char>> {
    states.map_values(|p: (String, S)| p.0@)
}

impl<S> ToolStates<S> {
    #[verifier::type_invariant]
    spec fn inv(&self) -> bool {
        strictly_sorted(state_names(self.states@))
    }

    /// The tools that have been started, in ascending order of name.
    pub closed spec fn spec_names(&self) -> Seq<Seq<char>> {
        state_names(self.states@)
    }

    pub fn new() -> (s: ToolStates<S>)
        ensures
            s.spec_names().len() == 0,
    {
        let states: Vec<(String, S)> = Vec::new();
        assert(state_names(states@) =~= Seq::<Seq<char>>::empty());
        ToolStates { states }
    }

    /// The tools this agent has actually reached for so far, in order of name.
    pub fn started(&self) -> (r: Vec<String>)
        ensures
            strings_view(r@) == self.spec_names(),
            strictly_sorted(strings_view(r@)),
    {
        proof {
            use_type_invariant(self);
        }
        let mut r: Vec<String> = Vec::new();
        for i in 0..self.states.len()
            invariant
                strings_view(r@) == state_names(self.states@).take(i as int),
        {
            let ghost before = r@;
            let name = self.states[i].0.clone();
            proof {
                lemma_strings_view_push(before, name);
            }
            r.push(name);
            assert(strings_view(r@) =~= state_names(self.states@).take(i + 1));
        }
        assert(state_names(self.states@).take(self.states.len() as int) =~= state_names(
            self.states@,
        ));
        r
    }

    /// Where `name`'s state is, or where it belongs among the others.
    fn find(&self, name: &str) -> (r: (bool, usize))
        ensures
            r.1 <= self.spec_names().len(),
            r.0 ==> r.1 < self.spec_names().len() && self.spec_names()[r.1 as int] == name@,
            !r.0 ==> !self.spec_names().contains(name@),
            !r.0 ==> forall|i: int| 0 <= i < r.1 ==> seq_less(#[trigger] self.spec_names()[i], name@),
            !r.0 ==> forall|i: int|
                r.1 <= i < self.spec_names().len() ==> seq_less(name@, #[trigger] self.spec_names()[i]),
    {
        proof {
            use_type_invariant(self);
        }
        let ghost names = state_names(self.states@);
        let mut i: usize = 0;
        while i < self.states.len()
            invariant
                0 <= i <= self.states@.len(),
                names == state_names(self.states@),
                strictly_sorted(names),
                forall|j: int| 0 <= j < i ==> seq_less(#[trigger] names[j], name@),
            decreases self.states.len() - i,
        {
            assert(names[i as int] == self.states@[i as int].0@);
            if str_eq(self.states[i].0.as_str(), name) {
                return (true, i);
            }
            if str_less(name, self.states[i].0.as_str()) {
                assert forall|j: int| i <= j < names.len() implies seq_less(name@, #[trigger] names[j]) by {
                    if j > i {
                        lemma_seq_less_transitive(name@, names[i as int], names[j]);
                    }
                }
                assert(!names.contains(name@)) by {
                    if names.contains(name@) {
                        let k = choose|k: int| 0 <= k < names.len() && names[k] == name@;
                        lemma_seq_less_irreflexive(name@);
                    }
                }
                return (false, i);
            }
            proof {
                lemma_seq_less_total(name@, names[i as int]);
            }
            i += 1;
        }
        assert(!names.contains(name@)) by {
            if names.contains(name@) {
                let k = choose|k: int| 0 <= k < names.len() && names[k] == name@;
                lemma_seq_less_irreflexive(name@);
            }
        }
        (false, i)
    }
}

proof fn lemma_insert_sorted(names: Seq<Seq<char>>, i: int, n: Seq<char>)
    requires
        strictly_sorted(names),
        0 <= i <= names.len(),
        forall|j: int| 0 <= j < i ==> seq_less(#[trigger] names[j], n),
        forall|j: int| i <= j < names.len() ==> seq_less(n, #[trigger] names[j]),
    ensures
        strictly_sorted(names.insert(i, n)),
{
    let m = names.insert(i, n);
    assert forall|a: int, b: int| 0 <= a < b < m.len() implies seq_less(m[a], m[b]) by {
        if a < i && b < i {
            assert(m[a] == names[a] && m[b] == names[b]);
        } else if a < i && b == i {
            assert(m[a] == names[a]);
        } else if a < i {
            assert(m[a] == names[a] && m[b] == names[b - 1]);
        } else if a == i {
            assert(m[b] == names[b - 1]);
        } else {
            assert(m[a] == names[a - 1] && m[b] == names[b - 1]);
        }
    }
}

proof fn lemma_state_names_insert<S>(states: Seq<(String, S)>, i: int, p: (String, S))
    requires
        0 <= i <= states.len(),
    ensures
        state_names(states.insert(i, p)) == state_names(states).insert(i, p.0@),
{
    assert(state_names(states.insert(i, p)) =~= state_names(states).insert(i, p.0@));
}

proof fn lemma_state_names_remove<S>(states: Seq<(String, S)>, i: int)
    requires
        0 <= i < states.len(),
    ensures
        state_names(states.remove(i)) == state_names(states).remove(i),
{
    assert(state_names(states.remove(i)) =~= state_names(states).remove(i));
}

/// What running one call of the tool `name` did to an agent's tool states,
/// from the names and states before (`names0`, `states0`) to those after
/// (`names1`, `states1`), answering `r`. A state that exists answers the call
/// and nothing else changes. Otherwise `tool` starts one first: when that
/// fails, its failure is the answer and nothing changes; when it works, the
/// new state takes its place in name order and answers the call.
pub open spec fn ran<T: Tool>(
    names0: Seq<Seq<char>>,
    states0: Seq<T::State>,
    names1: Seq<Seq<char>>,
    states1: Seq<T::State>,
    name: Seq<char>,
    tool: T,
    dir: Seq<char>,
    config: Seq<char>,
    arguments: Seq<char>,
    r: Result<ToolOutput, ToolError>,
) -> bool {
    if names0.contains(name) {
        &&& names1 == names0
        &&& states1.len() == states0.len()
        &&& forall|i: int|
            0 <= i < states0.len() && names0[i] != name ==> #[trigger] states1[i] == states0[i]
        &&& forall|i: int|
            0 <= i < states0.len() && names0[i] == name ==> #[trigger] states0[i].answers(
                states1[i],
                dir,
                config,
                arguments,
                r,
            )
    } else {
        ||| {
            &&& r is Err
            &&& tool.starts(dir, config, Err(r->Err_0))
            &&& names1 == names0
            &&& states1 == states0
        }
        ||| exists|j: int, s0: T::State|
            #![trigger tool.starts(dir, config, Ok(s0)), names0.insert(j, name)]
            {
                &&& 0 <= j <= states0.len()
                &&& tool.starts(dir, config, Ok(s0))
                &&& names1 == names0.insert(j, name)
                &&& states1 == states0.insert(j, states1[j])
                &&& s0.answers(states1[j], dir, config, arguments, r)
            }
    }
}

spec fn state_values<S>(states: Seq<(String, S)>) -> Seq<S> {
    states.map_values(|p: (String, S)| p.1)
}

impl<S> ToolStates<S> {
    /// The state kept for each name of `spec_names`, in the same order.
    pub closed spec fn spec_states(&self) -> Seq<S> {
        state_values(self.states@)
    }

    /// There is one state for each name.
    pub proof fn lemma_one_state_per_name(&self)
        ensures
            self.spec_states().len() == self.spec_names().len(),
    {
    }
}

proof fn lemma_sorted_distinct(names: Seq<Seq<char>>, i: int, j: int)
    requires
        strictly_sorted(names),
        0 <= i < names.len(),
        0 <= j < names.len(),
        names[i] == names[j],
    ensures
        i == j,
{
    if i != j {
        lemma_seq_less_irreflexive(names[i]);
    }
}

impl<S: ToolState> ToolStates<S> {
    /// Runs one call against the state this agent keeps for the tool `name`,
    /// starting it with `tool` first when this is the first time the agent has
    /// reached for it. A state that exists is kept; a failure to start is not
    /// remembered, so the next call tries again.
    pub fn run<T: Tool<State = S>>(
        &mut self,
        name: &str,
        tool: &T,
        context: &ToolContext,
        arguments: &str,
    ) -> (r: Result<ToolOutput, ToolError>)
        ensures
            ran::<T>(
                old(self).spec_names(),
                old(self).spec_states(),
                final(self).spec_names(),
                final(self).spec_states(),
                name@,
                *tool,
                context.spec_dir(),
                context.spec_config(),
                arguments@,
                r,
            ),
    {
        proof {
            use_type_invariant(&*self);
        }
        let (found, i) = self.find(name);
        let mut taken: ToolStates<S> = ToolStates::new();
        core::mem::swap(self, &mut taken);
        let ghost names0 = state_names(taken.states@);
        let ghost vals0 = state_values(taken.states@);
        let mut states = taken.states;
        assert(state_names(states@) == names0);
        let ghost mut started: Option<S> = None;
        if !found {
            match tool.new_state(context) {
                Err(e) => {
                    *self = ToolStates { states };
                    assert(state_values(self.states@) == vals0);
                    return Err(e);
                },
                Ok(state) => {
                    proof {
                        started = Some(state);
                    }
                    let entry = (name.to_owned(), state);
                    proof {
                        lemma_state_names_insert(states@, i as int, entry);
                        lemma_insert_sorted(names0, i as int, name@);
                    }
                    let ghost before = states@;
                    states.insert(i, entry);
                    assert(state_values(states@) =~= state_values(before).insert(i as int, entry.1));
                },
            }
        }
        let ghost names1 = state_names(states@);
        let ghost vals1 = state_values(states@);
        assert(strictly_sorted(names1));
        assert(vals1.len() == names1.len());
        let (entry_name, mut state) = states.remove(i);
        let ghost first = state;
        assert(first == vals1[i as int]);
        let out = state.run(context, arguments);
        let ghost removed = states@;
        states.insert(i, (entry_name, state));
        proof {
            lemma_state_names_remove(removed.insert(i as int, (entry_name, state)), i as int);
            assert(state_names(states@) =~= names1);
            assert(state_values(states@) =~= vals1.update(i as int, state));
        }
        *self = ToolStates { states };
        proof {
            let vals2 = state_values(self.states@);
            if found {
                assert(names1 == names0);
                assert forall|k: int| 0 <= k < vals0.len() && names0[k] == name@ implies #[trigger] vals0[k].answers(
                    vals2[k],
                    context.spec_dir(),
                    context.spec_config(),
                    arguments@,
                    out,
                ) by {
                    lemma_sorted_distinct(names0, k, i as int);
                }
            } else {
                let s0 = started->Some_0;
                assert(vals1 == vals0.insert(i as int, s0));
                assert(vals2 =~= vals0.insert(i as int, vals2[i as int]));
                assert(tool.starts(context.spec_dir(), context.spec_config(), Ok(s0)));
                assert(names1 == names0.insert(i as int, name@));
            }
        }
        out
    }
}

// Registry //////////////////////////
//////////////////////////////////////

/// What the registry knows of a tool without asking it again: the name it
/// registered under and whether every agent gets it.
pub struct EntryView {
    pub name: Seq<char>,
    pub always_enabled: bool,
}

struct RegisteredTool<T> {
    name: String,
    always_enabled: bool,
    tool: T,
}

spec fn registered_tools<T>(tools: Seq<RegisteredTool<T>>) -> Seq<T> {
    tools.map_values(|t: RegisteredTool<T>| t.tool)
}

spec fn entries_view<T>(tools: Seq<RegisteredTool<T>>) -> Seq<EntryView> {
    tools.map_values(
        |t: RegisteredTool<T>| EntryView { name: t.name@, always_enabled: t.always_enabled },
    )
}

/// No two entries share a name.
pub open spec fn unique_names(entries: Seq<EntryView>) -> bool {
    forall|i: int, j: int|
        0 <= i < entries.len() && 0 <= j < entries.len() && i != j ==> entries[i].name
            != entries[j].name
}

/// The index of the entry named `n`, if there is one.
pub open spec fn index_of(entries: Seq<EntryView>, n: Seq<char>, i: int) -> Option<int>
    decreases entries.len() - i,
{
    if i < 0 || i >= entries.len() {
        None
    } else if entries[i].name == n {
        Some(i)
    } else {
        index_of(entries, n, i + 1)
    }
}

/// `entries` without the one named `n`, if there was one.
pub open spec fn without(entries: Seq<EntryView>, n: Seq<char>) -> Seq<EntryView> {
    match index_of(entries, n, 0) {
        Some(k) => entries.remove(k),
        None => entries,
    }
}

/// The names of the entries every agent gets, in registration order.
pub open spec fn always_names(entries: Seq<EntryView>) -> Seq<Seq<char>>
    decreases entries.len(),
{
    if entries.len() == 0 {
        Seq::empty()
    } else if entries.last().always_enabled {
        always_names(entries.drop_last()).push(entries.last().name)
    } else {
        always_names(entries.drop_last())
    }
}

/// The names a `config.json` may put in `enabled`: every entry that is not
/// already on for everyone, in registration order.
pub open spec fn enableable(entries: Seq<EntryView>) -> Seq<Seq<char>>
    decreases entries.len(),
{
    if entries.len() == 0 {
        Seq::empty()
    } else if !entries.last().always_enabled {
        enableable(entries.drop_last()).push(entries.last().name)
    } else {
        enableable(entries.drop_last())
    }
}

/// The tools an agent gets for `enabled`, in the order the model sees them:
/// the always enabled ones first, then each enabled name in turn, each tool
/// once. The first name that is not registered is what stops it.
pub open spec fn chosen_names(entries: Seq<EntryView>, enabled: Seq<Seq<char>>) -> Result<
    Seq<Seq<char>>,
    Seq<char>,
>
    decreases enabled.len(),
{
    if enabled.len() == 0 {
        Ok(always_names(entries))
    } else {
        match chosen_names(entries, enabled.drop_last()) {
            Err(n) => Err(n),
            Ok(acc) => {
                let n = enabled.last();
                if acc.contains(n) {
                    Ok(acc)
                } else if index_of(entries, n, 0) is Some {
                    Ok(acc.push(n))
                } else {
                    Err(n)
                }
            },
        }
    }
}

/// The first name in `tools` from `i` on that already appeared before it.
pub open spec fn first_repeat(tools: Seq<Seq<char>>, i: int) -> Option<Seq<char>>
    decreases tools.len() - i,
{
    if i < 0 || i >= tools.len() {
        None
    } else if tools.take(i).contains(tools[i]) {
        Some(tools[i])
    } else {
        first_repeat(tools, i + 1)
    }
}

pub open spec fn config_tools(configs: Seq<ToolConfigView>) -> Seq<Seq<char>> {
    configs.map_values(|c: ToolConfigView| c.tool)
}

/// The settings block written for the tool `n`, if one was.
pub open spec fn config_for(configs: Seq<ToolConfigView>, n: Seq<char>) -> Option<Seq<char>>
    decreases configs.len(),
{
    if configs.len() == 0 {
        None
    } else if configs[0].tool == n {
        Some(configs[0].settings)
    } else {
        config_for(configs.drop_first(), n)
    }
}

/// The block a tool is handed to check: the one written for it, or `{}`
/// when none was.
pub open spec fn block_for(configs: Seq<ToolConfigView>, n: Seq<char>) -> Seq<char> {
    match config_for(configs, n) {
        Some(c) => c,
        None => EMPTY_OBJECT@,
    }
}

/// Whether `vs` may be the verdicts the tools behind `names` give on the
/// blocks they are handed, asked in order until one refuses: each is a
/// verdict that tool may give on its block, each but the last took its block,
/// and the asking stops short of the end only at a refusal.
pub open spec fn verdicts_given<T: Tool>(
    tools: Seq<T>,
    entries: Seq<EntryView>,
    names: Seq<Seq<char>>,
    configs: Seq<ToolConfigView>,
    vs: Seq<Result<(), String>>,
) -> bool {
    &&& vs.len() <= names.len()
    &&& forall|i: int|
        0 <= i < vs.len() ==> tools[index_of(entries, names[i], 0)->0].config_verdict(
            block_for(configs, names[i]),
            #[trigger] vs[i],
        )
    &&& forall|i: int| 0 <= i < vs.len() - 1 ==> #[trigger] vs[i] is Ok
    &&& vs.len() < names.len() ==> vs.len() > 0 && vs.last() is Err
}

/// What asking the tools came to, for the verdicts `vs`: the tools' names,
/// or the tool that refused its block and its reason.
pub open spec fn verdict_outcome(names: Seq<Seq<char>>, vs: Seq<Result<(), String>>) -> Result<
    Seq<Seq<char>>,
    ToolSettingsErrorView,
> {
    if vs.len() > 0 && vs.last() is Err {
        Err(
            ToolSettingsErrorView::InvalidToolConfig {
                tool: names[vs.len() - 1],
                error: vs.last()->Err_0@,
            },
        )
    } else {
        Ok(names)
    }
}

/// What working `settings` out against the registered `tools` may come to:
/// the names of the tools the agent gets, or why it gets none. Only the
/// tools the agent gets are asked about their blocks.
pub open spec fn may_resolve<T: Tool>(
    tools: Seq<T>,
    entries: Seq<EntryView>,
    settings: ToolSettingsView,
    out: Result<Seq<Seq<char>>, ToolSettingsErrorView>,
) -> bool {
    match resolve_plan(entries, settings) {
        Err(e) => out == Err::<Seq<Seq<char>>, ToolSettingsErrorView>(e),
        Ok(names) => exists|vs: Seq<Result<(), String>>|
            #[trigger] verdicts_given(tools, entries, names, settings.configs, vs) && out
                == verdict_outcome(names, vs),
    }
}

/// What a `tools` block comes to before any tool is asked about its own
/// settings: the names of the tools the agent gets, or why it gets none.
pub open spec fn resolve_plan(entries: Seq<EntryView>, settings: ToolSettingsView) -> Result<
    Seq<Seq<char>>,
    ToolSettingsErrorView,
> {
    match first_repeat(config_tools(settings.configs), 0) {
        Some(t) => Err(ToolSettingsErrorView::DuplicateToolConfig(t)),
        None => match chosen_names(entries, settings.enabled) {
            Err(n) => Err(
                ToolSettingsErrorView::UnknownTool {
                    name: n,
                    available: joined(enableable(entries), ", "@),
                },
            ),
            Ok(names) => Ok(names),
        },
    }
}

/// Every tool this runtime knows how to run, in the order it was registered,
/// which is the order the model sees them in.
pub struct ToolRegistry<T> {
    tools: Vec<RegisteredTool<T>>,
}

impl<T> ToolRegistry<T> {
    #[verifier::type_invariant]
    spec fn inv(&self) -> bool {
        unique_names(entries_view(self.tools@))
    }

    pub closed spec fn entries(&self) -> Seq<EntryView> {
        entries_view(self.tools@)
    }

    /// The registered tools themselves, in the order of `entries`.
    pub closed spec fn spec_tools(&self) -> Seq<T> {
        registered_tools(self.tools@)
    }

    /// There is one tool for each entry.
    pub proof fn lemma_one_tool_per_entry(&self)
        ensures
            self.spec_tools().len() == self.entries().len(),
    {
    }

    pub fn new() -> (r: ToolRegistry<T>)
        ensures
            r.entries().len() == 0,
            r.spec_tools().len() == 0,
    {
        let tools: Vec<RegisteredTool<T>> = Vec::new();
        assert(entries_view(tools@) =~= Seq::<EntryView>::empty());
        ToolRegistry { tools }
    }

    /// The names of the registered tools are always distinct.
    pub fn names_are_unique(&self)
        ensures
            unique_names(self.entries()),
    {
        proof {
            use_type_invariant(self);
        }
    }

    fn position(&self, name: &str) -> (r: Option<usize>)
        ensures
            match r {
                Some(k) => index_of(self.entries(), name@, 0) == Some(k as int) && k
                    < self.entries().len(),
                None => index_of(self.entries(), name@, 0) is None,
            },
    {
        let ghost es = self.entries();
        let mut i: usize = 0;
        while i < self.tools.len()
            invariant
                0 <= i <= self.tools@.len(),
                es == entries_view(self.tools@),
                index_of(es, name@, 0) == index_of(es, name@, i as int),
            decreases self.tools.len() - i,
        {
            assert(es[i as int].name == self.tools@[i as int].name@);
            if str_eq(self.tools[i].name.as_str(), name) {
                return Some(i);
            }
            i += 1;
        }
        None
    }

    /// The tool registered under `name`.
    pub fn tool(&self, name: &str) -> (r: Option<&T>)
        ensures
            match index_of(self.entries(), name@, 0) {
                Some(k) => r == Some(&self.spec_tools()[k]),
                None => r is None,
            },
    {
        match self.position(name) {
            Some(k) => Some(&self.tools[k].tool),
            None => None,
        }
    }

    /// Every name a `config.json` may put in `enabled`, which is every
    /// registered tool that is not already on for everyone.
    pub fn enableable_names(&self) -> (r: Vec<String>)
        ensures
            strings_view(r@) == enableable(self.entries()),
    {
        let ghost es = self.entries();
        let mut r: Vec<String> = Vec::new();
        for i in 0..self.tools.len()
            invariant
                es == entries_view(self.tools@),
                strings_view(r@) == enableable(es.take(i as int)),
        {
            assert(es.take(i + 1).drop_last() =~= es.take(i as int));
            assert(es[i as int].name == self.tools@[i as int].name@);
            if !self.tools[i].always_enabled {
                let ghost before = r@;
                let name = self.tools[i].name.clone();
                proof {
                    lemma_strings_view_push(before, name);
                }
                r.push(name);
            }
        }
        assert(es.take(self.tools.len() as int) =~= es);
        r
    }
}

impl<T: Tool> ToolRegistry<T> {
    /// Adds a tool under the name it gives, replacing one already registered
    /// under that name so a caller can put its own in place of a built in.
    pub fn register(self, tool: T) -> (r: ToolRegistry<T>)
        ensures
            r.entries().len() > 0,
            r.entries() == without(self.entries(), r.entries().last().name).push(
                r.entries().last(),
            ),
            tool.gives_name(r.entries().last().name),
            tool.gives_always_enabled(r.entries().last().always_enabled),
            r.spec_tools() == match index_of(self.entries(), r.entries().last().name, 0) {
                Some(k) => self.spec_tools().remove(k),
                None => self.spec_tools(),
            }.push(tool),
    {
        proof {
            use_type_invariant(&self);
        }
        let name = tool.name();
        let always_enabled = tool.always_enabled();
        let at = self.position(name.as_str());
        let ghost es0 = self.entries();
        let ghost ts0 = self.spec_tools();
        let ToolRegistry { tools } = self;
        let mut tools = tools;
        match at {
            Some(k) => {
                tools.remove(k);
                assert(entries_view(tools@) =~= es0.remove(k as int));
                assert(registered_tools(tools@) =~= ts0.remove(k as int));
            },
            None => {},
        }
        let ghost ts1 = registered_tools(tools@);
        let ghost es1 = entries_view(tools@);
        assert(es1 == without(es0, name@));
        let entry = RegisteredTool { name, always_enabled, tool };
        let ghost e = EntryView { name: entry.name@, always_enabled };
        tools.push(entry);
        assert(entries_view(tools@) =~= es1.push(e));
        assert(registered_tools(tools@) =~= ts1.push(tool));
        proof {
            assert(forall|i: int| 0 <= i < es1.len() ==> es1[i].name != e.name) by {
                assert forall|i: int| 0 <= i < es1.len() implies es1[i].name != e.name by {
                    match index_of(es0, e.name, 0) {
                        Some(k) => {
                            lemma_index_of_found(es0, e.name, 0);
                            if i < k {
                                assert(es1[i] == es0[i]);
                                assert(i != k);
                            } else {
                                assert(es1[i] == es0[i + 1]);
                                assert(i + 1 != k);
                            }
                        },
                        None => {
                            lemma_index_of_none(es0, e.name, 0, i);
                        },
                    }
                }
            }
            let es2 = es1.push(e);
            assert forall|i: int, j: int|
                0 <= i < es2.len() && 0 <= j < es2.len() && i != j implies es2[i].name
                != es2[j].name by {
                if i < es1.len() && j < es1.len() {
                    match index_of(es0, e.name, 0) {
                        Some(k) => {
                            let ii = if i < k { i } else { i + 1 };
                            let jj = if j < k { j } else { j + 1 };
                            assert(es1[i] == es0[ii]);
                            assert(es1[j] == es0[jj]);
                        },
                        None => {},
                    }
                }
            }
        }
        ToolRegistry { tools }
    }
}

proof fn lemma_index_of_found(entries: Seq<EntryView>, n: Seq<char>, i: int)
    requires
        index_of(entries, n, i) is Some,
    ensures
        i <= index_of(entries, n, i)->0 < entries.len(),
        0 <= i,
        entries[index_of(entries, n, i)->0].name == n,
        forall|j: int| i <= j < index_of(entries, n, i)->0 ==> entries[j].name != n,
    decreases entries.len() - i,
{
    if i >= 0 && i < entries.len() && entries[i].name != n {
        lemma_index_of_found(entries, n, i + 1);
    }
}

proof fn lemma_index_of_none(entries: Seq<EntryView>, n: Seq<char>, i: int, j: int)
    requires
        index_of(entries, n, i) is None,
        0 <= i <= j < entries.len(),
    ensures
        entries[j].name != n,
    decreases j - i,
{
    if i < j {
        lemma_index_of_none(entries, n, i + 1, j);
    }
}

// Agent tools ///////////////////////
//////////////////////////////////////

#[derive(Clone)]
struct AgentTool<T> {
    name: String,
    tool: T,
    config: String,
}

/// One tool an agent may call: its name, and the settings it is handed.
pub struct AgentToolView {
    pub name: Seq<char>,
    pub config: Seq<char>,
}

spec fn agent_tools_view<T>(tools: Seq<AgentTool<T>>) -> Seq<AgentToolView> {
    tools.map_values(|t: AgentTool<T>| AgentToolView { name: t.name@, config: t.config@ })
}

spec fn agent_tool_objects<T>(tools: Seq<AgentTool<T>>) -> Seq<T> {
    tools.map_values(|t: AgentTool<T>| t.tool)
}

/// Where the first of `names` from the `i`th on that is `n` stands.
pub open spec fn position_of(names: Seq<Seq<char>>, n: Seq<char>, i: int) -> Option<int>
    decreases names.len() - i,
{
    if i < 0 || i >= names.len() {
        None
    } else if names[i] == n {
        Some(i)
    } else {
        position_of(names, n, i + 1)
    }
}

/// What the model reads back for what a tool came to: its output, or
/// `(no output)` when that is blank, or the error it gave.
pub open spec fn answer_text(out: Result<ToolOutput, ToolError>) -> Seq<char> {
    match out {
        Ok(o) => placeholder_text(o.spec_content()),
        Err(e) => "error: "@ + tool_error_text(e),
    }
}

pub open spec fn agent_tool_names(tools: Seq<AgentToolView>) -> Seq<Seq<char>> {
    tools.map_values(|t: AgentToolView| t.name)
}

/// The tools one agent may call, already looked up and already paired with
/// that agent's settings for each. Worked out once when the agent's files are
/// read and held from then on.
#[derive(Clone)]
pub struct AgentTools<T> {
    tools: Vec<AgentTool<T>>,
}

/// What the model is told when it calls a tool that is not among the ones
/// it may call: naming the ones that exist is what lets it recover.
pub open spec fn unknown_tool_text(name: Seq<char>, names: Seq<Seq<char>>) -> Seq<char> {
    "there is no tool named `"@ + name + "`. the tools you can call are: "@ + joined(
        names,
        ", "@,
    )
}

impl<T> AgentTools<T> {
    pub closed spec fn entries(&self) -> Seq<AgentToolView> {
        agent_tools_view(self.tools@)
    }

    /// The tool behind each of `entries`, in the same order.
    pub closed spec fn spec_tools(&self) -> Seq<T> {
        agent_tool_objects(self.tools@)
    }

    /// There is one tool for each entry.
    pub proof fn lemma_one_tool_per_entry(&self)
        ensures
            self.spec_tools().len() == self.entries().len(),
    {
    }

    /// An agent with nothing to call, which is what an agent whose files have
    /// not been read yet has.
    pub fn empty() -> (r: AgentTools<T>)
        ensures
            r.entries().len() == 0,
    {
        let tools: Vec<AgentTool<T>> = Vec::new();
        assert(agent_tools_view(tools@) =~= Seq::<AgentToolView>::empty());
        AgentTools { tools }
    }

    pub fn names(&self) -> (r: Vec<String>)
        ensures
            strings_view(r@) == agent_tool_names(self.entries()),
    {
        let ghost ns = agent_tool_names(self.entries());
        let mut r: Vec<String> = Vec::new();
        for i in 0..self.tools.len()
            invariant
                ns == agent_tool_names(agent_tools_view(self.tools@)),
                strings_view(r@) == ns.take(i as int),
        {
            let ghost before = r@;
            let name = self.tools[i].name.clone();
            proof {
                lemma_strings_view_push(before, name);
            }
            r.push(name);
            assert(strings_view(r@) =~= ns.take(i + 1));
        }
        assert(ns.take(self.tools.len() as int) =~= ns);
        r
    }

    pub fn is_empty(&self) -> (r: bool)
        ensures
            r == (self.entries().len() == 0),
    {
        self.tools.len() == 0
    }
}

pub open spec fn definition_names(tools: Seq<crate::openrouter::types::Tool>) -> Seq<Seq<char>> {
    tools.map_values(|t: crate::openrouter::types::Tool| t.function.name@)
}

impl<T> AgentTools<T> {
    fn position(&self, name: &str) -> (r: Option<usize>)
        ensures
            match r {
                Some(k) => k < self.entries().len() && self.entries()[k as int].name == name@
                    && position_of(agent_tool_names(self.entries()), name@, 0) == Some(k as int),
                None => !agent_tool_names(self.entries()).contains(name@),
            },
    {
        let ghost ns = agent_tool_names(self.entries());
        let mut i: usize = 0;
        while i < self.tools.len()
            invariant
                0 <= i <= self.tools@.len(),
                ns == agent_tool_names(agent_tools_view(self.tools@)),
                forall|j: int| 0 <= j < i ==> ns[j] != name@,
                position_of(ns, name@, 0) == position_of(ns, name@, i as int),
            decreases self.tools.len() - i,
        {
            assert(ns[i as int] == self.tools@[i as int].name@);
            if str_eq(self.tools[i].name.as_str(), name) {
                return Some(i);
            }
            i += 1;
        }
        None
    }
}

impl<T: Tool> AgentTools<T> {
    /// The tools as the api describes them, for the request's `tools` field,
    /// in the order the agent holds them.
    pub fn definitions(&self) -> (r: Vec<crate::openrouter::types::Tool>)
        ensures
            definition_names(r@) == agent_tool_names(self.entries()),
            forall|i: int|
                0 <= i < r@.len() ==> {
                    &&& #[trigger] r@[i].function.description is Some
                    &&& self.spec_tools()[i].gives_description(
                        r@[i].function.description->Some_0@,
                    )
                    &&& self.spec_tools()[i].gives_parameters(r@[i].function.parameters@)
                },
    {
        let ghost ns = agent_tool_names(self.entries());
        let ghost ts = self.spec_tools();
        let mut r: Vec<crate::openrouter::types::Tool> = Vec::new();
        for i in 0..self.tools.len()
            invariant
                ns == agent_tool_names(agent_tools_view(self.tools@)),
                ts == agent_tool_objects(self.tools@),
                definition_names(r@) == ns.take(i as int),
                r@.len() == i,
                forall|k: int|
                    0 <= k < i ==> {
                        &&& #[trigger] r@[k].function.description is Some
                        &&& ts[k].gives_description(r@[k].function.description->Some_0@)
                        &&& ts[k].gives_parameters(r@[k].function.parameters@)
                    },
        {
            let entry = &self.tools[i];
            assert(ts[i as int] == entry.tool);
            let description = entry.tool.description();
            let definition = crate::openrouter::types::Tool::function(
                entry.name.as_str(),
                description.as_str(),
                entry.tool.parameters(),
            );
            let ghost before = r@;
            r.push(definition);
            assert(definition_names(r@) =~= definition_names(before).push(entry.name@));
            assert(ns[i as int] == entry.name@);
            assert(definition_names(r@) =~= ns.take(i + 1));
            assert(r@[i as int] == definition);
        }
        assert(ns.take(self.tools.len() as int) =~= ns);
        r
    }

    /// Runs one call the model asked for, in `dir`, against the state this
    /// agent keeps for the tool, starting that state if this is the first time
    /// the agent has reached for it.
    ///
    /// Every way this can go wrong comes back as a tool message rather than as
    /// an error, because the model is the one that can fix any of them and it
    /// can only read what it is sent. A bad call costs an iteration, not the
    /// turn.
    pub fn dispatch(&self, states: &mut ToolStates<T::State>, dir: &str, call: &ToolCall) -> (r:
        ToolResult)
        ensures
            r.spec_message() is Tool,
            r.spec_message()->Tool_tool_call_id == call.id@,
            !agent_tool_names(self.entries()).contains(call.function.name@) ==> {
                &&& r.spec_message()->Tool_content == "error: "@ + unknown_tool_text(
                    call.function.name@,
                    agent_tool_names(self.entries()),
                )
                &&& !r.spec_ends_turn()
                &&& *final(states) == *old(states)
            },
            agent_tool_names(self.entries()).contains(call.function.name@) && arguments_outcome(
                call.function.arguments@,
            ) is Err ==> {
                &&& r.spec_message()->Tool_content == "error: "@ + arguments_outcome(
                    call.function.arguments@,
                )->Err_0
                &&& !r.spec_ends_turn()
                &&& *final(states) == *old(states)
            },
            agent_tool_names(self.entries()).contains(call.function.name@) && arguments_outcome(
                call.function.arguments@,
            ) is Ok ==> {
                let k = position_of(agent_tool_names(self.entries()), call.function.name@, 0)->0;
                exists|out: Result<ToolOutput, ToolError>|
                    #[trigger] ran::<T>(
                        old(states).spec_names(),
                        old(states).spec_states(),
                        final(states).spec_names(),
                        final(states).spec_states(),
                        call.function.name@,
                        self.spec_tools()[k],
                        dir@,
                        self.entries()[k].config,
                        arguments_outcome(call.function.arguments@)->Ok_0,
                        out,
                    ) && r.spec_message()->Tool_content == answer_text(out) && r.spec_ends_turn()
                        == (out matches Ok(o) && o.spec_ends_turn())
            },
            r.spec_ends_turn() ==> agent_tool_names(self.entries()).contains(call.function.name@),
    {
        let ghost ns = agent_tool_names(self.entries());
        let k = match self.position(call.function.name.as_str()) {
            Some(k) => k,
            None => {
                let names = self.names();
                let mut text = "there is no tool named `".to_owned();
                text.append(call.function.name.as_str());
                text.append("`. the tools you can call are: ");
                text.append(join(&names, ", ").as_str());
                return ToolResult::error(call, text.as_str());
            },
        };
        assert(ns[k as int] == self.entries()[k as int].name);
        assert(ns.contains(call.function.name@));
        let arguments = match parse_arguments(call.function.arguments.as_str()) {
            Ok(arguments) => arguments,
            Err(e) => {
                return ToolResult::error(call, e.as_str());
            },
        };
        let entry = &self.tools[k];
        assert(entry.name@ == call.function.name@);
        assert(self.spec_tools()[k as int] == entry.tool);
        assert(self.entries()[k as int].config == entry.config@);
        let context = ToolContext::new(dir.to_owned(), entry.config.clone());
        let out = states.run(entry.name.as_str(), &entry.tool, &context, arguments.as_str());
        let ghost o = out;
        let r = match out {
            Ok(output) => ToolResult::new(call, output),
            Err(e) => ToolResult::error(call, e.message().as_str()),
        };
        assert(r.spec_message()->Tool_content == answer_text(o));
        assert(ran::<T>(
            old(states).spec_names(),
            old(states).spec_states(),
            states.spec_names(),
            states.spec_states(),
            call.function.name@,
            self.spec_tools()[k as int],
            dir@,
            self.entries()[k as int].config,
            arguments_outcome(call.function.arguments@)->Ok_0,
            o,
        ));
        assert(r.spec_ends_turn() == (o matches Ok(oo) && oo.spec_ends_turn()));
        assert(position_of(agent_tool_names(self.entries()), call.function.name@, 0)->0 == k);
        r
    }
}

// Resolving /////////////////////////
//////////////////////////////////////

proof fn lemma_always_names_step(es: Seq<EntryView>, i: int)
    requires
        0 <= i < es.len(),
    ensures
        always_names(es.take(i + 1)) == if es[i].always_enabled {
            always_names(es.take(i)).push(es[i].name)
        } else {
            always_names(es.take(i))
        },
{
    assert(es.take(i + 1).drop_last() =~= es.take(i));
}

proof fn lemma_config_for_prefix(configs: Seq<ToolConfigView>, n: Seq<char>, i: int)
    requires
        0 <= i <= configs.len(),
        forall|j: int| 0 <= j < i ==> configs[j].tool != n,
    ensures
        config_for(configs, n) == config_for(configs.skip(i), n),
    decreases i,
{
    if i > 0 {
        assert(configs[0].tool != n);
        lemma_config_for_prefix(configs.drop_first(), n, i - 1);
        assert(configs.drop_first().skip(i - 1) =~= configs.skip(i));
    } else {
        assert(configs.skip(0) =~= configs);
    }
}

proof fn lemma_take_push_contains(s: Seq<Seq<char>>, i: int, x: Seq<char>)
    requires
        0 <= i < s.len(),
    ensures
        s.take(i + 1).contains(x) <==> (s.take(i).contains(x) || s[i] == x),
{
    let t1 = s.take(i + 1);
    if s[i] == x {
        assert(t1[i] == x);
    }
    if s.take(i).contains(x) {
        let w = choose|w: int| 0 <= w < s.take(i).len() && s.take(i)[w] == x;
        assert(t1[w] == x);
    }
    if t1.contains(x) && s[i] != x {
        let w = choose|w: int| 0 <= w < t1.len() && t1[w] == x;
        assert(w < i);
        assert(s.take(i)[w] == x);
    }
}

proof fn lemma_chosen_err_extends(es: Seq<EntryView>, s: Seq<Seq<char>>, m: int)
    requires
        0 <= m <= s.len(),
        chosen_names(es, s.take(m)) is Err,
    ensures
        chosen_names(es, s) == chosen_names(es, s.take(m)),
    decreases s.len() - m,
{
    if m < s.len() {
        assert(s.take(m + 1).drop_last() =~= s.take(m));
        lemma_chosen_err_extends(es, s, m + 1);
    } else {
        assert(s.take(m) =~= s);
    }
}

impl<T: Tool + Clone> ToolRegistry<T> {
    /// The settings block written for the tool `n`, the first one naming it.
    fn config_named(configs: &Vec<ToolConfig>, n: &str) -> (r: Option<String>)
        ensures
            match r {
                Some(c) => config_for(tool_configs_view(configs@), n@) == Some(c@),
                None => config_for(tool_configs_view(configs@), n@) is None,
            },
    {
        let ghost cs = tool_configs_view(configs@);
        let mut i: usize = 0;
        while i < configs.len()
            invariant
                0 <= i <= configs@.len(),
                cs == tool_configs_view(configs@),
                forall|j: int| 0 <= j < i ==> cs[j].tool != n@,
            decreases configs.len() - i,
        {
            assert(cs[i as int].tool == configs@[i as int].tool@);
            if str_eq(configs[i].tool.as_str(), n) {
                proof {
                    lemma_config_for_prefix(cs, n@, i as int);
                }
                return Some(configs[i].settings.clone());
            }
            i += 1;
        }
        proof {
            lemma_config_for_prefix(cs, n@, i as int);
        }
        None
    }

    /// Works out which tools an agent gets for its `tools` block, and checks
    /// each one's settings. Two configs for one tool, or an enabled name that
    /// is not registered, stop it before any tool is asked; then each tool the
    /// agent gets, in order, checks the block written for it (`{}` when none
    /// was). A config for a tool that is not enabled is left alone.
    pub fn resolve(&self, settings: &ToolSettings) -> (r: Result<AgentTools<T>, ToolSettingsError>)
        ensures
            may_resolve(
                self.spec_tools(),
                self.entries(),
                settings@,
                match r {
                    Ok(t) => Ok(agent_tool_names(t.entries())),
                    Err(x) => Err(x@),
                },
            ),
            r matches Ok(t) ==> {
                &&& forall|i: int|
                    0 <= i < t.entries().len() ==> #[trigger] t.entries()[i].config == block_for(
                        settings@.configs,
                        t.entries()[i].name,
                    )
                &&& forall|i: int|
                    0 <= i < t.entries().len() ==> cloned::<T>(
                        self.spec_tools()[index_of(self.entries(), t.entries()[i].name, 0)->0],
                        #[trigger] t.spec_tools()[i],
                    )
            },
    {
        proof {
            use_type_invariant(self);
        }
        let ghost es = self.entries();
        let ghost cs = settings@.configs;
        let ghost tn = config_tools(cs);
        // two configs for one tool
        let mut j: usize = 0;
        assert(tn.len() == settings.configs@.len());
        while j < settings.configs.len()
            invariant
                0 <= j <= settings.configs@.len(),
                cs == tool_configs_view(settings.configs@),
                tn == config_tools(cs),
                tn.len() == settings.configs@.len(),
                first_repeat(tn, 0) == first_repeat(tn, j as int),
            decreases settings.configs.len() - j,
        {
            let mut seen = false;
            let mut i: usize = 0;
            assert(tn[j as int] == settings.configs@[j as int].tool@);
            while i < j
                invariant
                    0 <= i <= j < settings.configs@.len(),
                    tn == config_tools(cs),
                    cs == tool_configs_view(settings.configs@),
                    tn.len() == settings.configs@.len(),
                    tn[j as int] == settings.configs@[j as int].tool@,
                    seen <==> tn.take(i as int).contains(tn[j as int]),
                decreases j - i,
            {
                assert(tn[i as int] == settings.configs@[i as int].tool@);
                if settings.configs[i].tool == settings.configs[j].tool {
                    seen = true;
                }
                proof {
                    lemma_take_push_contains(tn, i as int, tn[j as int]);
                }
                i += 1;
            }
            if seen {
                assert(first_repeat(tn, j as int) == Some(tn[j as int]));
                return Err(ToolSettingsError::DuplicateToolConfig(settings.configs[j].tool.clone()));
            }
            j += 1;
        }
        assert(first_repeat(tn, 0) is None);
        // the tools that are part of how a turn works come first
        let mut chosen: Vec<usize> = Vec::new();
        let mut names: Vec<String> = Vec::new();
        for i in 0..self.tools.len()
            invariant
                es == entries_view(self.tools@),
                strings_view(names@) == always_names(es.take(i as int)),
                chosen@.len() == names@.len(),
                forall|k: int|
                    0 <= k < chosen@.len() ==> #[trigger] chosen@[k] < es.len() && es[chosen@[k] as int].name
                        == names@[k]@,
        {
            proof {
                lemma_always_names_step(es, i as int);
            }
            assert(es[i as int] == (EntryView { name: self.tools@[i as int].name@, always_enabled: self.tools@[i as int].always_enabled }));
            if self.tools[i].always_enabled {
                let ghost before = names@;
                let name = self.tools[i].name.clone();
                proof {
                    lemma_strings_view_push(before, name);
                }
                names.push(name);
                chosen.push(i);
            }
        }
        assert(es.take(self.tools.len() as int) =~= es);
        let ghost en = settings@.enabled;
        assert(en.take(0) =~= Seq::<Seq<char>>::empty());
        for k in 0..settings.enabled.len()
            invariant
                es == entries_view(self.tools@),
                en == strings_view(settings.enabled@),
                first_repeat(tn, 0) is None,
                tn == config_tools(settings@.configs),
                chosen_names(es, en.take(k as int)) == Ok::<Seq<Seq<char>>, Seq<char>>(
                    strings_view(names@),
                ),
                chosen@.len() == names@.len(),
                forall|q: int|
                    0 <= q < chosen@.len() ==> #[trigger] chosen@[q] < es.len() && es[chosen@[q] as int].name
                        == names@[q]@,
        {
            assert(en.take(k + 1).drop_last() =~= en.take(k as int));
            assert(en[k as int] == settings.enabled@[k as int]@);
            let n = &settings.enabled[k];
            let mut present = false;
            let mut q: usize = 0;
            while q < names.len()
                invariant
                    0 <= q <= names@.len(),
                    present <==> strings_view(names@).take(q as int).contains(n@),
                decreases names.len() - q,
            {
                assert(strings_view(names@)[q as int] == names@[q as int]@);
                if names[q] == *n {
                    present = true;
                }
                proof {
                    lemma_take_push_contains(strings_view(names@), q as int, n@);
                }
                q += 1;
            }
            assert(strings_view(names@).take(names@.len() as int) =~= strings_view(names@));
            if !present {
                match self.position(n.as_str()) {
                    None => {
                        let available = join(&self.enableable_names(), ", ");
                        proof {
                            assert(en.take(k + 1).last() == n@);
                            assert(chosen_names(es, en.take(k + 1)) == Err::<Seq<Seq<char>>, Seq<char>>(n@));
                            lemma_chosen_err_extends(es, en, k + 1);
                        }
                        return Err(ToolSettingsError::UnknownTool { name: n.clone(), available });
                    },
                    Some(p) => {
                        proof {
                            lemma_index_of_found(es, n@, 0);
                        }
                        let ghost before = names@;
                        let name = n.clone();
                        proof {
                            lemma_strings_view_push(before, name);
                        }
                        names.push(name);
                        chosen.push(p);
                    },
                }
            }
        }
        assert(en.take(settings.enabled.len() as int) =~= en);
        let ghost planned = strings_view(names@);
        assert(resolve_plan(es, settings@) == Ok::<Seq<Seq<char>>, ToolSettingsErrorView>(planned));
        // each tool checks the block written for it
        let ghost ts = registered_tools(self.tools@);
        proof {
            assert forall|q: int| 0 <= q < chosen@.len() implies #[trigger] index_of(
                es,
                planned[q],
                0,
            ) == Some(chosen@[q] as int) by {
                assert(planned[q] == names@[q]@);
                lemma_index_of_unique(es, planned[q], chosen@[q] as int);
            }
        }
        let mut tools: Vec<AgentTool<T>> = Vec::new();
        let ghost mut vs: Seq<Result<(), String>> = Seq::empty();
        assert(agent_tool_names(agent_tools_view(tools@)) =~= planned.take(0));
        for k in 0..chosen.len()
            invariant
                es == entries_view(self.tools@),
                resolve_plan(es, settings@) == Ok::<Seq<Seq<char>>, ToolSettingsErrorView>(planned),
                planned == strings_view(names@),
                chosen@.len() == names@.len(),
                forall|q: int|
                    0 <= q < chosen@.len() ==> #[trigger] chosen@[q] < es.len(),
                agent_tool_names(agent_tools_view(tools@)) == planned.take(k as int),
                agent_tools_view(tools@).len() == k,
                forall|q: int|
                    0 <= q < k ==> #[trigger] agent_tools_view(tools@)[q].config == block_for(
                        settings@.configs,
                        planned[q],
                    ),
                unique_names(es),
                ts == registered_tools(self.tools@),
                agent_tool_objects(tools@).len() == k,
                forall|q: int|
                    0 <= q < k ==> cloned::<T>(
                        ts[index_of(es, planned[q], 0)->0],
                        #[trigger] agent_tool_objects(tools@)[q],
                    ),
                forall|q: int|
                    0 <= q < chosen@.len() ==> #[trigger] index_of(es, planned[q], 0) == Some(
                        chosen@[q] as int,
                    ),
                vs.len() == k,
                k <= planned.len(),
                forall|q: int|
                    0 <= q < k ==> ts[index_of(es, planned[q], 0)->0].config_verdict(
                        block_for(settings@.configs, planned[q]),
                        #[trigger] vs[q],
                    ),
                forall|q: int| 0 <= q < k ==> #[trigger] vs[q] is Ok,
        {
            let idx = chosen[k];
            assert(planned[k as int] == names@[k as int]@);
            assert(index_of(es, planned[k as int], 0) == Some(idx as int));
            assert(ts[idx as int] == self.tools@[idx as int].tool);
            let found = Self::config_named(&settings.configs, names[k].as_str());
            let config = match found {
                Some(v) => v,
                None => EMPTY_OBJECT.to_owned(),
            };
            let verdict = self.tools[idx].tool.validate_config(config.as_str());
            let ghost v = verdict;
            match verdict {
                Err(error) => {
                    let r = Err(ToolSettingsError::InvalidToolConfig { tool: names[k].clone(), error });
                    proof {
                        let vs2 = vs.push(v);
                        assert(vs2[k as int] == v);
                        assert forall|q: int| 0 <= q < vs2.len() implies ts[index_of(es, planned[q], 0)->0].config_verdict(
                            block_for(settings@.configs, planned[q]),
                            #[trigger] vs2[q],
                        ) by {
                            if q < k {
                                assert(vs2[q] == vs[q]);
                            }
                        }
                        assert forall|q: int| 0 <= q < vs2.len() - 1 implies #[trigger] vs2[q] is Ok by {
                            assert(vs2[q] == vs[q]);
                        }
                        assert(verdicts_given(ts, es, planned, settings@.configs, vs2));
                        assert(verdict_outcome(planned, vs2) == Err::<Seq<Seq<char>>, ToolSettingsErrorView>(
                            ToolSettingsErrorView::InvalidToolConfig { tool: planned[k as int], error: v->Err_0@ },
                        ));
                    }
                    return r;
                },
                Ok(()) => {
                    proof {
                        let vs2 = vs.push(v);
                        assert forall|q: int| 0 <= q < vs2.len() implies ts[index_of(es, planned[q], 0)->0].config_verdict(
                            block_for(settings@.configs, planned[q]),
                            #[trigger] vs2[q],
                        ) by {
                            if q < k {
                                assert(vs2[q] == vs[q]);
                            }
                        }
                        assert forall|q: int| 0 <= q < vs2.len() implies #[trigger] vs2[q] is Ok by {
                            if q < k {
                                assert(vs2[q] == vs[q]);
                            }
                        }
                        vs = vs2;
                    }
                    let ghost before = tools@;
                    let tool = self.tools[idx].tool.clone();
                    assert(cloned::<T>(ts[idx as int], tool));
                    let entry = AgentTool { name: names[k].clone(), tool, config };
                    let ghost added = AgentToolView { name: entry.name@, config: entry.config@ };
                    tools.push(entry);
                    assert(agent_tools_view(tools@) =~= agent_tools_view(before).push(added));
                    assert(agent_tool_objects(tools@) =~= agent_tool_objects(before).push(tool));
                    assert(agent_tool_names(agent_tools_view(tools@)) =~= agent_tool_names(
                        agent_tools_view(before),
                    ).push(added.name));
                    assert(agent_tool_names(agent_tools_view(tools@)) =~= planned.take(k + 1));
                },
            }
        }
        assert(planned.take(chosen.len() as int) =~= planned);
        proof {
            assert(verdicts_given(ts, es, planned, settings@.configs, vs));
            assert(verdict_outcome(planned, vs) == Ok::<Seq<Seq<char>>, ToolSettingsErrorView>(planned));
        }
        Ok(AgentTools { tools })
    }
}

// Laws //////////////////////////////
//////////////////////////////////////

/// No name appears twice.
pub open spec fn distinct_names(s: Seq<Seq<char>>) -> bool {
    forall|i: int, j: int| 0 <= i < s.len() && 0 <= j < s.len() && i != j ==> s[i] != s[j]
}

/// `x` is the name of a registered tool every agent gets.
pub open spec fn registered_always(es: Seq<EntryView>, x: Seq<char>) -> bool {
    exists|i: int| 0 <= i < es.len() && es[i].name == x && es[i].always_enabled
}

proof fn lemma_always_names_registered(es: Seq<EntryView>)
    ensures
        forall|k: int|
            0 <= k < always_names(es).len() ==> registered_always(
                es,
                #[trigger] always_names(es)[k],
            ),
    decreases es.len(),
{
    if es.len() > 0 {
        let front = es.drop_last();
        lemma_always_names_registered(front);
        assert forall|k: int| 0 <= k < always_names(es).len() implies registered_always(
            es,
            #[trigger] always_names(es)[k],
        ) by {
            if k < always_names(front).len() {
                assert(registered_always(front, always_names(front)[k]));
                let i = choose|i: int|
                    0 <= i < front.len() && front[i].name == always_names(front)[k]
                        && front[i].always_enabled;
                assert(es[i] == front[i]);
            } else {
                assert(es.last().always_enabled);
                assert(es[es.len() - 1].name == always_names(es)[k]);
            }
        }
    } else {
        assert(always_names(es).len() == 0);
    }
}

proof fn lemma_always_names_distinct(es: Seq<EntryView>)
    requires
        unique_names(es),
    ensures
        distinct_names(always_names(es)),
    decreases es.len(),
{
    if es.len() > 0 {
        let front = es.drop_last();
        assert(unique_names(front)) by {
            assert forall|i: int, j: int|
                0 <= i < front.len() && 0 <= j < front.len() && i != j implies front[i].name
                != front[j].name by {
                assert(front[i] == es[i] && front[j] == es[j]);
            }
        }
        lemma_always_names_distinct(front);
        lemma_always_names_registered(front);
        if es.last().always_enabled {
            let a = always_names(es);
            assert forall|i: int, j: int|
                0 <= i < a.len() && 0 <= j < a.len() && i != j implies a[i] != a[j] by {
                let last = a.len() - 1;
                if i == last || j == last {
                    let other = if i == last { j } else { i };
                    assert(registered_always(front, always_names(front)[other]));
                    let w = choose|w: int|
                        0 <= w < front.len() && front[w].name == always_names(front)[other]
                            && front[w].always_enabled;
                    assert(es[w] == front[w]);
                    assert(w != es.len() - 1);
                }
            }
        }
    }
}

proof fn lemma_always_names_prefix_of_chosen(es: Seq<EntryView>, en: Seq<Seq<char>>)
    requires
        chosen_names(es, en) is Ok,
    ensures
        chosen_names(es, en)->Ok_0.len() >= always_names(es).len(),
        chosen_names(es, en)->Ok_0.take(always_names(es).len() as int) == always_names(es),
    decreases en.len(),
{
    if en.len() == 0 {
        assert(always_names(es).take(always_names(es).len() as int) =~= always_names(es));
    } else {
        lemma_always_names_prefix_of_chosen(es, en.drop_last());
        let acc = chosen_names(es, en.drop_last())->Ok_0;
        let n = always_names(es).len() as int;
        assert(acc.push(en.last()).take(n) =~= acc.take(n));
    }
}

/// The tools an agent is given for a `tools` block: every always enabled tool
/// comes first, in registration order; every name the block enables is among
/// them; each one is a registered tool; and none is offered twice.
pub proof fn lemma_chosen_tools(es: Seq<EntryView>, en: Seq<Seq<char>>)
    requires
        unique_names(es),
        chosen_names(es, en) is Ok,
    ensures
        chosen_names(es, en)->Ok_0.take(always_names(es).len() as int) == always_names(es),
        forall|i: int| 0 <= i < en.len() ==> chosen_names(es, en)->Ok_0.contains(#[trigger] en[i]),
        forall|k: int|
            0 <= k < chosen_names(es, en)->Ok_0.len() ==> index_of(
                es,
                #[trigger] chosen_names(es, en)->Ok_0[k],
                0,
            ) is Some,
        distinct_names(chosen_names(es, en)->Ok_0),
    decreases en.len(),
{
    lemma_always_names_prefix_of_chosen(es, en);
    let ns = chosen_names(es, en)->Ok_0;
    if en.len() == 0 {
        lemma_always_names_distinct(es);
        lemma_always_names_registered(es);
        assert forall|k: int| 0 <= k < ns.len() implies index_of(es, #[trigger] ns[k], 0) is Some by {
            assert(registered_always(es, always_names(es)[k]));
            let i = choose|i: int| 0 <= i < es.len() && es[i].name == ns[k] && es[i].always_enabled;
            lemma_index_of_reaches(es, ns[k], 0, i);
        }
    } else {
        let front = en.drop_last();
        lemma_chosen_tools(es, front);
        let acc = chosen_names(es, front)->Ok_0;
        let n = en.last();
        assert forall|i: int| 0 <= i < en.len() implies ns.contains(#[trigger] en[i]) by {
            if i < en.len() - 1 {
                assert(front[i] == en[i]);
                assert(acc.contains(front[i]));
                let w = choose|w: int| 0 <= w < acc.len() && acc[w] == front[i];
                if !acc.contains(n) {
                    assert(ns[w] == acc[w]);
                }
            } else {
                if !acc.contains(n) {
                    assert(ns[acc.len() as int] == n);
                }
            }
        }
    }
}

proof fn lemma_index_of_unique(es: Seq<EntryView>, n: Seq<char>, c: int)
    requires
        unique_names(es),
        0 <= c < es.len(),
        es[c].name == n,
    ensures
        index_of(es, n, 0) == Some(c),
{
    lemma_index_of_reaches(es, n, 0, c);
    lemma_index_of_found(es, n, 0);
}

proof fn lemma_index_of_reaches(es: Seq<EntryView>, n: Seq<char>, i: int, k: int)
    requires
        0 <= i <= k < es.len(),
        es[k].name == n,
    ensures
        index_of(es, n, i) is Some,
    decreases k - i,
{
    if i < k && es[i].name != n {
        lemma_index_of_reaches(es, n, i + 1, k);
    }
}

proof fn lemma_always_names_include(es: Seq<EntryView>, k: int)
    requires
        0 <= k < es.len(),
        es[k].always_enabled,
    ensures
        always_names(es).contains(es[k].name),
    decreases es.len(),
{
    let f = es.drop_last();
    if k == es.len() - 1 {
        assert(always_names(es) == always_names(f).push(es[k].name));
        assert(always_names(es)[always_names(f).len() as int] == es[k].name);
    } else {
        assert(f[k] == es[k]);
        lemma_always_names_include(f, k);
        let w = choose|w: int| 0 <= w < always_names(f).len() && always_names(f)[w] == es[k].name;
        if es.last().always_enabled {
            assert(always_names(es)[w] == es[k].name);
        }
    }
}

/// A tool registered as always enabled is among the tools of every agent
/// whose `tools` block can be worked out at all, whatever the block enables.
/// `end_turn` is such a tool, which is how every agent can end its turn.
pub proof fn lemma_every_agent_gets_the_always_enabled_tools(
    es: Seq<EntryView>,
    settings: ToolSettingsView,
    k: int,
)
    requires
        0 <= k < es.len(),
        es[k].always_enabled,
        resolve_plan(es, settings) is Ok,
    ensures
        resolve_plan(es, settings)->Ok_0.contains(es[k].name),
{
    lemma_always_names_include(es, k);
    lemma_always_names_prefix_of_chosen(es, settings.enabled);
    let names = chosen_names(es, settings.enabled)->Ok_0;
    let a = always_names(es);
    let w = choose|w: int| 0 <= w < a.len() && a[w] == es[k].name;
    assert(names.take(a.len() as int)[w] == names[w]);
}

} // verus!
