use std::sync::atomic::{AtomicBool, AtomicUsize, Ordering};
use std::sync::Arc;

use apila::openrouter::types::{ChatCompletionRequest, FunctionCall, Message, ToolCall};
use apila::runtime::agent_config::{ToolConfig, ToolSettings};
use apila::runtime::tool_registry::{AgentTools, ToolRegistry, ToolSettingsError, ToolStates};
use apila::tools::bash::{BashState, BashTool};
use apila::tools::end_turn::{EndTurnState, EndTurnTool};
use apila::tools::tool::{Tool, ToolContext, ToolError, ToolOutput, ToolState};

// Stub tools ////////////////////////
//////////////////////////////////////

/// The tools these tests register, one variant each.
#[derive(Clone)]
enum TestTool {
    /// Hands its arguments and its config straight back, so a test can see
    /// what reached it.
    Echo,
    /// On for every agent whether it asked or not, and says nothing at all.
    AlwaysOn,
    /// Refuses every call it is given.
    Refusing,
    /// Counts the states it starts; each state counts its calls.
    Counting(Arc<AtomicUsize>),
    /// Will not start the first time it is asked.
    Flaky(Arc<AtomicUsize>),
    /// Its state says when it is dropped.
    Closing(Arc<AtomicBool>),
    /// Refuses any settings at all.
    Picky,
    EndTurn(EndTurnTool),
    /// The library's bash tool, for its name, its parameters and its settings.
    Bash(BashTool),
    /// Answers with the directory it was run in.
    Located,
}

/// Says when it is dropped, standing in for a connection to close.
struct Closer(Arc<AtomicBool>);

impl Drop for Closer {
    fn drop(&mut self) {
        self.0.store(true, Ordering::SeqCst);
    }
}

enum TestState {
    Echo(String),
    Silent,
    Refusing,
    Counting(usize),
    Closing(Closer),
    EndTurn(EndTurnState),
    Bash(BashState),
    Located,
}

fn json(text: &str) -> serde_json::Value {
    serde_json::from_str(text).expect("json")
}

fn object_schema() -> String {
    r#"{"type": "object", "properties": {}}"#.to_string()
}

impl ToolState for TestState {
    fn run(
        &mut self,
        context: &ToolContext,
        arguments: &str,
    ) -> Result<ToolOutput, ToolError> {
        match self {
            TestState::Echo(config) => {
                let mut map = serde_json::Map::new();
                map.insert("arguments".to_string(), json(arguments));
                map.insert("config".to_string(), json(config));
                Ok(ToolOutput::new(serde_json::Value::Object(map).to_string()))
            }
            TestState::Silent => Ok(ToolOutput::new(String::new())),
            TestState::Refusing => Err(ToolError::MissingArgument {
                argument: "something".into(),
            }),
            TestState::Counting(calls) => {
                *calls += 1;
                Ok(ToolOutput::new(calls.to_string()))
            }
            TestState::Closing(_) => Ok(ToolOutput::new("open".to_string())),
            TestState::EndTurn(state) => state.run(context, arguments),
            TestState::Bash(state) => state
                .command(arguments)
                .map(|command| ToolOutput::new(command)),
            TestState::Located => Ok(ToolOutput::new(context.dir())),
        }
    }
}

impl Tool for TestTool {
    type State = TestState;

    fn name(&self) -> String {
        match self {
            TestTool::Echo => "echo".into(),
            TestTool::AlwaysOn => "always_on".into(),
            TestTool::Refusing => "refusing".into(),
            TestTool::Counting(_) => "counting".into(),
            TestTool::Flaky(_) => "flaky".into(),
            TestTool::Closing(_) => "closing".into(),
            TestTool::Picky => "picky".into(),
            TestTool::EndTurn(tool) => tool.name(),
            TestTool::Bash(tool) => tool.name(),
            TestTool::Located => "located".into(),
        }
    }

    fn description(&self) -> String {
        match self {
            TestTool::EndTurn(tool) => tool.description(),
            TestTool::Bash(tool) => tool.description(),
            _ => format!("the {} tool", self.name()),
        }
    }

    fn parameters(&self) -> String {
        match self {
            TestTool::EndTurn(tool) => tool.parameters(),
            TestTool::Bash(tool) => tool.parameters(),
            _ => object_schema(),
        }
    }

    fn always_enabled(&self) -> bool {
        match self {
            TestTool::AlwaysOn => true,
            TestTool::EndTurn(tool) => tool.always_enabled(),
            _ => false,
        }
    }

    fn validate_config(&self, config: &str) -> Result<(), String> {
        match self {
            TestTool::Picky => match json(config).as_object().map(|object| object.is_empty()) {
                Some(true) => Ok(()),
                _ => Err("no settings are understood".into()),
            },
            TestTool::Bash(tool) => tool.validate_config(config),
            _ => Ok(()),
        }
    }

    fn new_state(&self, context: &ToolContext) -> Result<TestState, ToolError> {
        match self {
            TestTool::Echo => Ok(TestState::Echo(context.config())),
            TestTool::AlwaysOn => Ok(TestState::Silent),
            TestTool::Refusing => Ok(TestState::Refusing),
            TestTool::Counting(started) => {
                started.fetch_add(1, Ordering::SeqCst);
                Ok(TestState::Counting(0))
            }
            TestTool::Flaky(attempts) => {
                if attempts.fetch_add(1, Ordering::SeqCst) == 0 {
                    return Err(ToolError::NotStarted {
                        error: "the connection was refused".into(),
                    });
                }
                Ok(TestState::Silent)
            }
            TestTool::Closing(closed) => Ok(TestState::Closing(Closer(Arc::clone(closed)))),
            TestTool::Picky => Ok(TestState::Silent),
            TestTool::EndTurn(tool) => tool.new_state(context).map(TestState::EndTurn),
            TestTool::Bash(tool) => tool.new_state(context).map(TestState::Bash),
            TestTool::Located => Ok(TestState::Located),
        }
    }
}

// Helpers ///////////////////////////
//////////////////////////////////////

fn call(name: &str, arguments: &str) -> ToolCall {
    ToolCall {
        id: format!("call_{}", name),
        call_type: "function".into(),
        function: FunctionCall {
            name: name.into(),
            arguments: arguments.into(),
        },
    }
}

fn settings(enabled: &[&str], configs: Vec<ToolConfig>) -> ToolSettings {
    ToolSettings {
        enabled: enabled.iter().map(|name| name.to_string()).collect(),
        configs,
    }
}

fn tool_config(tool: &str, settings: &str) -> ToolConfig {
    ToolConfig {
        tool: tool.into(),
        settings: settings.to_string(),
    }
}

fn dir() -> String {
    ".".to_string()
}

/// The content of the tool message a dispatch answered with.
fn content(tools: &AgentTools<TestTool>, states: &mut ToolStates<TestState>, call: &ToolCall) -> String {
    let result = tools.dispatch(states, &dir(), call);
    result
        .message()
        .content()
        .expect("a tool message has content")
        .to_string()
}

fn registry() -> ToolRegistry<TestTool> {
    ToolRegistry::new()
        .register(TestTool::AlwaysOn)
        .register(TestTool::Echo)
        .register(TestTool::Refusing)
}

/// The tools every agent of the app can be given: ending the turn and
/// running commands.
fn default_tools() -> ToolRegistry<TestTool> {
    ToolRegistry::new()
        .register(TestTool::EndTurn(EndTurnTool::new()))
        .register(TestTool::Bash(BashTool::new()))
}

// Registration //////////////////////
//////////////////////////////////////

#[test]
fn a_tool_is_looked_up_by_the_name_it_registers_under() {
    let registry = registry();

    assert!(registry.tool("echo").is_some());
    assert!(registry.tool("nope").is_none());
}

/// The always on tools are never named in `enabled`, so they are not offered
/// as something to enable either.
#[test]
fn only_the_tools_an_agent_can_ask_for_are_offered_as_names() {
    assert_eq!(
        registry().enableable_names(),
        vec!["echo".to_string(), "refusing".to_string()]
    );
}

#[test]
fn registering_a_tool_twice_keeps_the_last_one() {
    let registry = registry().register(TestTool::Counting(Arc::new(AtomicUsize::new(0))));
    let registry = registry.register(TestTool::Counting(Arc::new(AtomicUsize::new(0))));

    let tools = registry
        .resolve(&settings(&["counting"], Vec::new()))
        .expect("resolve");

    assert_eq!(tools.names().iter().filter(|n| *n == "counting").count(), 1);
}

// Resolving /////////////////////////
//////////////////////////////////////

#[test]
fn an_agent_gets_the_tools_its_settings_enable() {
    let tools = registry()
        .resolve(&settings(&["echo"], Vec::new()))
        .expect("resolve");

    assert_eq!(
        tools.names(),
        vec!["always_on".to_string(), "echo".to_string()]
    );
}

#[test]
fn an_agent_gets_the_always_enabled_tools_without_asking() {
    let tools = registry().resolve(&ToolSettings::empty()).expect("resolve");

    assert_eq!(tools.names(), vec!["always_on".to_string()]);
}

#[test]
fn enabling_an_always_enabled_tool_does_not_offer_it_twice() {
    let tools = registry()
        .resolve(&settings(&["always_on", "echo"], Vec::new()))
        .expect("resolve");

    assert_eq!(
        tools.names(),
        vec!["always_on".to_string(), "echo".to_string()]
    );
}

#[test]
fn enabling_a_tool_that_does_not_exist_is_rejected() {
    let err = registry()
        .resolve(&settings(&["nope"], Vec::new()))
        .err()
        .expect("no such tool");

    assert!(matches!(err, ToolSettingsError::UnknownTool { name, .. } if name == "nope"));
}

#[test]
fn two_configs_for_one_tool_are_rejected() {
    let err = registry()
        .resolve(&settings(
            &["echo"],
            vec![
                tool_config("echo", r#"{"a": 1}"#),
                tool_config("echo", r#"{"a": 2}"#),
            ],
        ))
        .err()
        .expect("two configs");

    assert!(matches!(err, ToolSettingsError::DuplicateToolConfig(tool) if tool == "echo"));
}

#[test]
fn a_config_a_tool_refuses_is_rejected() {
    let err = registry()
        .register(TestTool::Picky)
        .resolve(&settings(&["picky"], vec![tool_config("picky", r#"{"nope": 1}"#)]))
        .err()
        .expect("bad config");

    assert!(matches!(err, ToolSettingsError::InvalidToolConfig { tool, .. } if tool == "picky"));
}

/// A config for a tool the agent has not switched on is a setting waiting to
/// be used, not a mistake to report.
#[test]
fn a_config_for_a_tool_that_is_not_enabled_is_ignored() {
    let tools = registry()
        .register(TestTool::Picky)
        .resolve(&settings(&["echo"], vec![tool_config("picky", r#"{"nope": 1}"#)]))
        .expect("resolve");

    assert!(!tools.names().contains(&"picky".to_string()));
}

#[test]
fn a_tool_is_given_its_own_config_and_nothing_else() {
    let tools = registry()
        .resolve(&settings(
            &["echo"],
            vec![
                tool_config("echo", r#"{"mine": true}"#),
                tool_config("refusing", r#"{"theirs": true}"#),
            ],
        ))
        .expect("resolve");
    let mut states = ToolStates::new();

    let content = content(&tools, &mut states, &call("echo", "{}"));

    assert!(content.contains(r#""config":{"mine":true}"#), "{}", content);
    assert!(!content.contains("theirs"), "{}", content);
}

/// A tool name the api would reject costs a whole request to find out about,
/// so the validation that already exists is pointed at the registry.
#[test]
fn every_definition_is_accepted_by_the_request_validator() {
    let tools = default_tools()
        .resolve(&settings(&["bash"], Vec::new()))
        .expect("resolve");

    let request = ChatCompletionRequest::new("openai/gpt-4o", vec![Message::user("hi")])
        .set_tools(tools.definitions());

    assert!(request.validate().is_ok());
}

#[test]
fn the_default_tools_are_end_turn_and_bash() {
    let tools = default_tools()
        .resolve(&settings(&["bash"], Vec::new()))
        .expect("resolve");

    assert_eq!(
        tools.names(),
        vec!["end_turn".to_string(), "bash".to_string()]
    );
}

// Dispatch //////////////////////////
//////////////////////////////////////

#[test]
fn an_unknown_tool_answers_the_model_instead_of_failing_the_agent() {
    let tools = registry()
        .resolve(&settings(&["echo"], Vec::new()))
        .expect("resolve");
    let mut states = ToolStates::new();

    let content = content(&tools, &mut states, &call("nope", "{}"));

    assert!(content.starts_with("error: "), "{}", content);
    // naming what does exist is what lets the model recover
    assert!(content.contains("echo"), "{}", content);
}

#[test]
fn arguments_that_are_not_json_answer_the_model_with_an_error() {
    let tools = registry()
        .resolve(&settings(&["echo"], Vec::new()))
        .expect("resolve");
    let mut states = ToolStates::new();

    let content = content(&tools, &mut states, &call("echo", "{ not json"));

    assert!(content.contains("not valid json"), "{}", content);
}

#[test]
fn empty_arguments_are_read_as_no_arguments() {
    let tools = registry()
        .resolve(&settings(&["echo"], Vec::new()))
        .expect("resolve");
    let mut states = ToolStates::new();

    let content = content(&tools, &mut states, &call("echo", ""));

    assert!(content.contains(r#""arguments":{}"#), "{}", content);
}

#[test]
fn null_arguments_are_read_as_no_arguments() {
    let tools = registry()
        .resolve(&settings(&["echo"], Vec::new()))
        .expect("resolve");
    let mut states = ToolStates::new();

    let content = content(&tools, &mut states, &call("echo", "null"));

    assert!(content.contains(r#""arguments":{}"#), "{}", content);
}

#[test]
fn arguments_that_are_not_an_object_answer_the_model_with_an_error() {
    let tools = registry()
        .resolve(&settings(&["echo"], Vec::new()))
        .expect("resolve");
    let mut states = ToolStates::new();

    let content = content(&tools, &mut states, &call("echo", "[1, 2]"));

    assert!(content.contains("must be a json object"), "{}", content);
}

#[test]
fn a_tool_that_refuses_the_call_answers_the_model_with_an_error() {
    let tools = registry()
        .resolve(&settings(&["refusing"], Vec::new()))
        .expect("resolve");
    let mut states = ToolStates::new();

    let content = content(&tools, &mut states, &call("refusing", "{}"));

    assert!(content.starts_with("error: "), "{}", content);
}

#[test]
fn a_result_carries_back_the_tool_call_id_it_answers() {
    let tools = registry()
        .resolve(&settings(&["echo"], Vec::new()))
        .expect("resolve");
    let mut states = ToolStates::new();

    let result = tools.dispatch(&mut states, &dir(), &call("echo", "{}"));

    match result.message() {
        Message::Tool { tool_call_id, .. } => assert_eq!(tool_call_id, "call_echo"),
        other => panic!("expected a tool message, got {:?}", other),
    }
}

/// Some providers reject a tool message with nothing in it, so a tool that
/// said nothing has to say so.
#[test]
fn a_tool_that_says_nothing_still_answers_the_call() {
    let tools = registry().resolve(&ToolSettings::empty()).expect("resolve");
    let mut states = ToolStates::new();

    let content = content(&tools, &mut states, &call("always_on", "{}"));

    assert_eq!(content, "(no output)");
}

#[test]
fn ending_the_turn_is_carried_back_on_the_result() {
    let tools = default_tools()
        .resolve(&ToolSettings::empty())
        .expect("resolve");
    let mut states = ToolStates::new();

    let ended = tools.dispatch(&mut states, &dir(), &call("end_turn", "{}"));
    let carried_on = tools.dispatch(&mut states, &dir(), &call("nope", "{}"));

    assert!(ended.ends_turn());
    assert!(!carried_on.ends_turn());
}

// Tool state ////////////////////////
//////////////////////////////////////

#[test]
fn a_tools_state_is_started_once_and_kept() {
    let started = Arc::new(AtomicUsize::new(0));
    let tools = registry()
        .register(TestTool::Counting(Arc::clone(&started)))
        .resolve(&settings(&["counting"], Vec::new()))
        .expect("resolve");
    let mut states = ToolStates::new();

    let counts: Vec<String> = (0..3)
        .map(|_| content(&tools, &mut states, &call("counting", "{}")))
        .collect();

    assert_eq!(counts, vec!["1", "2", "3"]);
    assert_eq!(started.load(Ordering::SeqCst), 1);
}

/// A tool that opens a connection must not open one for an agent that never
/// gets round to using it.
#[test]
fn a_tool_is_not_started_until_the_agent_calls_it() {
    let started = Arc::new(AtomicUsize::new(0));
    let tools = registry()
        .register(TestTool::Counting(Arc::clone(&started)))
        .resolve(&settings(&["counting", "echo"], Vec::new()))
        .expect("resolve");
    let mut states = ToolStates::new();

    assert!(states.started().is_empty());
    assert_eq!(started.load(Ordering::SeqCst), 0);

    content(&tools, &mut states, &call("echo", "{}"));

    assert_eq!(states.started(), vec!["echo".to_string()]);
    assert_eq!(started.load(Ordering::SeqCst), 0);
}

#[test]
fn each_agent_gets_its_own_state() {
    let tools = registry()
        .register(TestTool::Counting(Arc::new(AtomicUsize::new(0))))
        .resolve(&settings(&["counting"], Vec::new()))
        .expect("resolve");

    let mut one = ToolStates::new();
    let mut other = ToolStates::new();

    content(&tools, &mut one, &call("counting", "{}"));
    content(&tools, &mut one, &call("counting", "{}"));
    let theirs = content(&tools, &mut other, &call("counting", "{}"));

    assert_eq!(theirs, "1");
}

/// A connection refused once must not leave the tool broken for the rest of
/// the agent's life.
#[test]
fn a_state_that_fails_to_start_is_tried_again_on_the_next_call() {
    let tools = registry()
        .register(TestTool::Flaky(Arc::new(AtomicUsize::new(0))))
        .resolve(&settings(&["flaky"], Vec::new()))
        .expect("resolve");
    let mut states = ToolStates::new();

    let first = content(&tools, &mut states, &call("flaky", "{}"));
    let second = content(&tools, &mut states, &call("flaky", "{}"));

    assert!(first.contains("the connection was refused"), "{}", first);
    assert_eq!(second, "(no output)");
}

/// Whatever a tool opened is closed by its `Drop`, which is what happens when
/// the agent's thread ends.
#[test]
fn a_state_is_closed_when_it_goes_out_of_scope() {
    let closed = Arc::new(AtomicBool::new(false));
    let tools = registry()
        .register(TestTool::Closing(Arc::clone(&closed)))
        .resolve(&settings(&["closing"], Vec::new()))
        .expect("resolve");

    {
        let mut states = ToolStates::new();
        content(&tools, &mut states, &call("closing", "{}"));
        assert!(!closed.load(Ordering::SeqCst));
    }

    assert!(closed.load(Ordering::SeqCst));
}

// Further cases /////////////////////
//////////////////////////////////////

#[test]
fn an_unknown_tool_is_told_every_tool_it_may_call() {
    let tools = registry()
        .resolve(&settings(&["echo", "refusing"], Vec::new()))
        .expect("resolve");
    let mut states = ToolStates::new();

    let content = content(&tools, &mut states, &call("nope", "{}"));

    assert_eq!(
        content,
        "error: there is no tool named `nope`. the tools you can call are: always_on, echo, refusing"
    );
}

#[test]
fn the_error_a_refusing_tool_gives_is_passed_on_word_for_word() {
    let tools = registry()
        .resolve(&settings(&["refusing"], Vec::new()))
        .expect("resolve");
    let mut states = ToolStates::new();

    let content = content(&tools, &mut states, &call("refusing", "{}"));

    assert_eq!(content, "error: `something` is required");
}

#[test]
fn the_unknown_tool_error_names_what_can_be_enabled() {
    let err = registry()
        .resolve(&settings(&["nope"], Vec::new()))
        .err()
        .expect("no such tool");

    assert_eq!(
        err.message(),
        "`nope` is not a tool. the tools you can enable are: echo, refusing"
    );
}

#[test]
fn the_definitions_follow_the_tools_the_agent_holds() {
    let tools = registry()
        .resolve(&settings(&["refusing", "echo"], Vec::new()))
        .expect("resolve");

    let names: Vec<String> = tools
        .definitions()
        .iter()
        .map(|tool| tool.function.name.clone())
        .collect();

    assert_eq!(names, tools.names());
}

#[test]
fn a_tool_is_run_in_the_directory_it_is_given() {
    let tools = ToolRegistry::new()
        .register(TestTool::Located)
        .resolve(&settings(&["located"], Vec::new()))
        .expect("resolve");
    let mut states = ToolStates::new();

    let result = tools.dispatch(&mut states, "/", &call("located", "{}"));
    let content = result
        .message()
        .content()
        .expect("a tool message has content")
        .to_string();

    assert_eq!(content, "/");
}
