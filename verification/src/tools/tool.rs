//! What a tool is, what it is told when it runs, and what it says back.

use vstd::prelude::*;
use vstd::string::*;

verus! {

/// What one tool holds for one agent, for as long as that agent runs. It
/// lives with the agent and is never shared, so a tool mutates its own state
/// directly, and whatever it opened is closed when the state is dropped.
pub trait ToolState: Send + Sized {
    /// Runs one call. `arguments` is the model's json, checked to be an
    /// object, so a tool only looks up the keys it declared. Failing here is
    /// not the agent failing: the failure goes back to the model as a tool
    /// message it can correct from.
    fn run(&mut self, context: &ToolContext, arguments: &str) -> (r: Result<
        ToolOutput,
        ToolError,
    >)
        ensures
            old(self).answers(
                *final(self),
                context.spec_dir(),
                context.spec_config(),
                arguments@,
                r,
            ),
    ;

    /// What a state may answer a call with the arguments `arguments`, run in
    /// `dir` with the tool's block `config`, and what it becomes by doing so.
    /// Each tool says this of itself; a tool whose answer depends on the world
    /// outside says what holds of every answer it can give. One that says
    /// nothing allows any answer.
    open spec fn answers(
        &self,
        after: Self,
        dir: Seq<char>,
        config: Seq<char>,
        arguments: Seq<char>,
        r: Result<ToolOutput, ToolError>,
    ) -> bool {
        true
    }
}

/// Something an agent can be given to do beyond talking, and the means of
/// starting one for a particular agent. Registered once for the whole
/// runtime, so an implementation holds nothing that belongs to one agent:
/// that lives in the state it starts.
pub trait Tool: Send + Sync {
    /// The state this tool keeps for one agent.
    type State: ToolState;

    /// How the model names the tool, and the name the user writes in
    /// `enabled`. Limited to 64 characters of `[A-Za-z0-9_-]` by the api.
    fn name(&self) -> (r: String)
        ensures
            self.gives_name(r@),
    ;

    /// The only documentation the model gets, so it says when to reach for
    /// the tool rather than only what it does.
    fn description(&self) -> (r: String)
        ensures
            self.gives_description(r@),
    ;

    /// A json schema object describing the call's arguments, as json.
    fn parameters(&self) -> (r: String)
        ensures
            self.gives_parameters(r@),
    ;

    /// Whether every agent gets this tool whether or not its `config.json`
    /// asked for it: true only for the tools that are part of how a turn works.
    fn always_enabled(&self) -> (r: bool)
        ensures
            self.gives_always_enabled(r),
    ;

    /// Checks the tool's own block out of `configs` before any agent runs, so
    /// a typo shows up on the configuration screen instead of mid turn.
    /// `config` is a json object, empty when the user wrote none. A tool that
    /// reads no settings accepts any.
    fn validate_config(&self, config: &str) -> (r: Result<(), String>)
        ensures
            self.config_verdict(config@, r),
    ;

    /// Whether `name` may be the name this tool gives. Each tool says this of
    /// itself; one that says nothing allows any name, and so for each of the
    /// relations below.
    open spec fn gives_name(&self, name: Seq<char>) -> bool {
        true
    }

    /// Whether `description` may be the description this tool gives.
    open spec fn gives_description(&self, description: Seq<char>) -> bool {
        true
    }

    /// Whether `parameters` may be the schema this tool gives.
    open spec fn gives_parameters(&self, parameters: Seq<char>) -> bool {
        true
    }

    /// Whether `on` may be the answer this tool gives to being always
    /// enabled.
    open spec fn gives_always_enabled(&self, on: bool) -> bool {
        true
    }

    /// Whether `r` may be this tool's verdict on the settings block `config`.
    open spec fn config_verdict(&self, config: Seq<char>, r: Result<(), String>) -> bool {
        true
    }

    /// Starts the tool for one agent, the first time that agent calls it. A
    /// failure is reported to the model like any other failed call, and is not
    /// remembered: the next call tries again.
    fn new_state(&self, context: &ToolContext) -> (r: Result<Self::State, ToolError>)
        ensures
            self.starts(context.spec_dir(), context.spec_config(), r),
    ;

    /// What starting this tool for an agent working in `dir`, with the tool's
    /// block `config`, may come to. One that says nothing allows any outcome.
    open spec fn starts(&self, dir: Seq<char>, config: Seq<char>, r: Result<Self::State, ToolError>) -> bool {
        true
    }
}

/// What a tool is told about the agent calling it: where to work, and the
/// tool's own entry from the agent's `tools.configs`.
#[derive(Debug, Clone)]
pub struct ToolContext {
    dir: String,
    config: String,
}

impl ToolContext {
    pub fn new(dir: String, config: String) -> (c: ToolContext)
        ensures
            c.spec_dir() == dir@,
            c.spec_config() == config@,
    {
        ToolContext { dir, config }
    }

    pub closed spec fn spec_dir(&self) -> Seq<char> {
        self.dir@
    }

    pub closed spec fn spec_config(&self) -> Seq<char> {
        self.config@
    }

    /// The agent's own directory. Everything a tool touches on disk is
    /// relative to it.
    pub fn dir(&self) -> (r: String)
        ensures
            r@ == self.spec_dir(),
    {
        self.dir.clone()
    }

    /// This tool's block out of the agent's `tools.configs`, an empty object
    /// when the user wrote none.
    pub fn config(&self) -> (r: String)
        ensures
            r@ == self.spec_config(),
    {
        self.config.clone()
    }

    pub fn set_dir(self, dir: String) -> (c: ToolContext)
        ensures
            c.spec_dir() == dir@,
            c.spec_config() == self.spec_config(),
    {
        let mut c = self;
        c.dir = dir;
        c
    }

    pub fn set_config(self, config: String) -> (c: ToolContext)
        ensures
            c.spec_dir() == self.spec_dir(),
            c.spec_config() == config@,
    {
        let mut c = self;
        c.config = config;
        c
    }
}

/// What a tool has to say back to the model, and whether it wants the agent's
/// turn to stop here. The signal rides on the output, so the agent loop never
/// has to know which tools are registered.
#[derive(Debug, Clone)]
pub struct ToolOutput {
    content: String,
    ends_turn: bool,
}

impl ToolOutput {
    pub fn new(content: String) -> (o: ToolOutput)
        ensures
            o.spec_content() == content@,
            !o.spec_ends_turn(),
    {
        ToolOutput { content, ends_turn: false }
    }

    pub closed spec fn spec_content(&self) -> Seq<char> {
        self.content@
    }

    pub closed spec fn spec_ends_turn(&self) -> bool {
        self.ends_turn
    }

    pub fn content(&self) -> (r: String)
        ensures
            r@ == self.spec_content(),
    {
        self.content.clone()
    }

    /// True when the tool has declared the agent's work finished. The loop
    /// still answers every outstanding tool call before it stops.
    pub fn ends_turn(&self) -> (r: bool)
        ensures
            r == self.spec_ends_turn(),
    {
        self.ends_turn
    }

    pub fn set_ends_turn(self, ends_turn: bool) -> (o: ToolOutput)
        ensures
            o.spec_content() == self.spec_content(),
            o.spec_ends_turn() == ends_turn,
    {
        let mut o = self;
        o.ends_turn = ends_turn;
        o
    }
}

/// Why a tool call could not be run. All of these come back to the model as
/// a tool message rather than stopping the agent.
#[derive(Debug, Clone)]
pub enum ToolError {
    MissingArgument { argument: String },
    InvalidArgument { argument: String, expected: String },
    /// The tool could not start for this agent at all.
    NotStarted { error: String },
    InvalidConfig { error: String },
    /// The tool was running and something went wrong that the call is not to
    /// blame for.
    Failed { error: String },
}

/// How a tool error reads to the model.
pub open spec fn tool_error_text(e: ToolError) -> Seq<char> {
    match e {
        ToolError::MissingArgument { argument } => "`"@ + argument@ + "` is required"@,
        ToolError::InvalidArgument { argument, expected } => "`"@ + argument@ + "` must be "@
            + expected@,
        ToolError::NotStarted { error } => "the tool could not be started: "@ + error@,
        ToolError::InvalidConfig { error } => "the tool's config is not usable: "@ + error@,
        ToolError::Failed { error } => "the tool failed while running: "@ + error@,
    }
}

impl ToolError {
    pub fn message(&self) -> (r: String)
        ensures
            r@ == tool_error_text(*self),
    {
        match self {
            ToolError::MissingArgument { argument } => {
                let mut r = "`".to_owned();
                r.append(argument.as_str());
                r.append("` is required");
                r
            },
            ToolError::InvalidArgument { argument, expected } => {
                let mut r = "`".to_owned();
                r.append(argument.as_str());
                r.append("` must be ");
                r.append(expected.as_str());
                r
            },
            ToolError::NotStarted { error } => {
                let mut r = "the tool could not be started: ".to_owned();
                r.append(error.as_str());
                r
            },
            ToolError::InvalidConfig { error } => {
                let mut r = "the tool's config is not usable: ".to_owned();
                r.append(error.as_str());
                r
            },
            ToolError::Failed { error } => {
                let mut r = "the tool failed while running: ".to_owned();
                r.append(error.as_str());
                r
            },
        }
    }
}

} // verus!
