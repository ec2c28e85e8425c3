use apila::config::Config;
use apila::openrouter::types::{
    ChatCompletionResponse, Choice, FinishReason, FunctionCall, Message, ToolCall, Usage,
};
use apila::runtime::agent::{AgentDefinition, AgentState};
use apila::runtime::agent_config::{
    AgentSettings, ConfigFilesError, DirScan, SettingsRead, ToolSettings, AGENTS_FILE_NAME,
    AGENT_CONFIG_FILE_NAME,
};
use apila::runtime::helpers::{classify, Turn};
use apila::runtime::runtime::{
    agent_dir_list, dir_name, is_agent_dir_name, load_config_files, Loaded, RuntimeConfig,
    RuntimeError, RuntimeInner,
};
use apila::runtime::tool_registry::{ToolRegistry, ToolResult};
use apila::runtime::turn::{
    compose_system_prompt, next_request, record_failure, record_reply, record_tool_results,
    send_message, start_session, Reply, Step, TurnProgress,
};
use apila::tools::end_turn::EndTurnTool;
use apila::tools::tool::ToolOutput;

const PROJECT: &str = "project";

fn registry() -> ToolRegistry<EndTurnTool> {
    ToolRegistry::new().register(EndTurnTool::new())
}

fn settings(model: &str, max_iterations: u32, enabled: &[&str]) -> AgentSettings {
    AgentSettings {
        model: model.to_string(),
        agent_max_iterations: max_iterations,
        tools: ToolSettings {
            enabled: enabled.iter().map(|s| s.to_string()).collect(),
            configs: Vec::new(),
        },
    }
}

fn scan(read: SettingsRead, agents_present: bool, directive_present: bool) -> DirScan {
    DirScan {
        config_present: !matches!(read, SettingsRead::Missing),
        settings: read,
        agents_present,
        local_system_present: false,
        project_system_present: true,
        directive_present,
    }
}

fn path(name: &str) -> String {
    format!("{}/{}", PROJECT, name)
}

/// What reading a complete agent directory comes to.
fn loaded(name: &str, model: &str, max_iterations: u32) -> (String, Loaded<EndTurnTool>) {
    let dir = path(name);
    let result = load_config_files(
        &registry(),
        &dir,
        PROJECT,
        scan(SettingsRead::Parsed(settings(model, max_iterations, &[])), true, false),
    );
    (dir, result)
}

/// A runtime's list after it first looked at `names`, every one complete.
fn roster(names: &[&str]) -> RuntimeInner {
    let mut inner = RuntimeInner::new();
    let dirs: Vec<String> = names.iter().map(|name| path(name)).collect();
    inner.retain_present(&dirs);
    let to_read = inner.dirs_to_read(&dirs);
    let loaded: Vec<(String, Loaded<EndTurnTool>)> = to_read
        .iter()
        .map(|dir| loaded(&dir_name(dir), "openai/gpt-4o", 5))
        .collect();
    inner.apply_loaded(loaded);
    inner
}

fn names(inner: &RuntimeInner) -> Vec<String> {
    inner
        .list_agents()
        .iter()
        .map(|agent| agent.config().name())
        .collect()
}

/// A definition for an agent that is ready to start.
fn ready(name: &str, max_iterations: u32) -> AgentDefinition {
    let mut inner = RuntimeInner::new();
    inner.apply_loaded(vec![loaded(name, "openai/gpt-4o", max_iterations)]);
    inner.agent_definition(name).expect("agent exists")
}

fn call(id: &str, name: &str, arguments: &str) -> ToolCall {
    ToolCall {
        id: id.into(),
        call_type: "function".into(),
        function: FunctionCall {
            name: name.into(),
            arguments: arguments.into(),
        },
    }
}

fn response(message: Message, finish_reason: Option<FinishReason>) -> ChatCompletionResponse {
    ChatCompletionResponse {
        id: "gen-1".into(),
        model: "openai/gpt-4o".into(),
        created: 0,
        object: "chat.completion".into(),
        choices: vec![Choice {
            index: 0,
            message,
            finish_reason,
        }],
        usage: Some(Usage {
            prompt_tokens: 10,
            completion_tokens: 5,
            total_tokens: 15,
        }),
    }
}

// Directories ///////////////////////
//////////////////////////////////////

#[test]
fn hidden_directories_and_target_are_not_agents() {
    let dirs = agent_dir_list(vec![
        path("writer"),
        path(".git"),
        path("target"),
        path("builder"),
    ]);

    assert_eq!(dirs, vec![path("builder"), path("writer")]);
    assert!(!is_agent_dir_name(".hidden"));
    assert!(is_agent_dir_name("targets"));
}

#[test]
fn an_agent_is_named_after_its_directory() {
    assert_eq!(dir_name("project/builder"), "builder");
    assert_eq!(dir_name("project/builder/"), "builder");
    assert_eq!(dir_name("builder"), "builder");
}

// Loading ///////////////////////////
//////////////////////////////////////

#[test]
fn agents_are_loaded_from_the_project_directories() {
    let inner = roster(&["writer", "builder"]);

    assert_eq!(names(&inner), vec!["builder".to_string(), "writer".to_string()]);
}

#[test]
fn a_loaded_agent_starts_out_configuring_with_its_files_read() {
    let inner = roster(&["builder"]);
    let agent = inner.agent_definition("builder").expect("agent exists");

    assert_eq!(agent.state(), AgentState::Configuring);
    assert!(agent.config_files().expect("files were read").complete());
    assert_eq!(agent.config().model().full_slug(), "openai/gpt-4o");
    assert_eq!(agent.tool_names(), vec!["end_turn".to_string()]);
}

#[test]
fn reloading_picks_up_a_directory_added_after_startup() {
    let mut inner = roster(&["builder"]);
    let dirs = vec![path("builder"), path("writer")];

    inner.retain_present(&dirs);
    let to_read = inner.dirs_to_read(&dirs);
    inner.apply_loaded(
        to_read
            .iter()
            .map(|dir| loaded(&dir_name(dir), "openai/gpt-4o", 5))
            .collect(),
    );

    assert_eq!(names(&inner), vec!["builder".to_string(), "writer".to_string()]);
}

#[test]
fn reloading_drops_an_agent_whose_directory_is_gone() {
    let mut inner = roster(&["builder"]);

    inner.retain_present(&[]);

    assert!(inner.list_agents().is_empty());
}

#[test]
fn reloading_keeps_a_running_agent_whose_directory_is_gone() {
    let mut inner = roster(&["builder"]);
    let mut definition = inner.agent_definition("builder").expect("agent exists");
    definition.set_state(AgentState::Idle);
    inner.set_definition("builder", definition).expect("set");

    inner.retain_present(&[]);
    inner.apply_loaded::<EndTurnTool>(Vec::new());

    assert_eq!(
        inner.agent_definition("builder").expect("agent exists").state(),
        AgentState::Idle
    );
}

#[test]
fn reloading_does_not_read_the_files_of_a_started_agent() {
    let mut inner = roster(&["builder", "writer"]);
    let mut definition = inner.agent_definition("builder").expect("agent exists");
    definition.set_state(AgentState::Working);
    inner.set_definition("builder", definition).expect("set");

    let to_read = inner.dirs_to_read(&[path("builder"), path("writer")]);

    assert_eq!(to_read, vec![path("writer")]);
}

#[test]
fn reloading_picks_up_a_model_change() {
    let mut inner = roster(&["builder"]);

    inner.apply_loaded(vec![loaded("builder", "mistral/large-2", 5)]);

    assert_eq!(
        inner
            .agent_definition("builder")
            .expect("agent exists")
            .config()
            .model()
            .full_slug(),
        "mistral/large-2"
    );
    assert_eq!(inner.list_agents().len(), 1);
}

#[test]
fn an_agent_without_a_usable_model_is_left_unconfigured() {
    let mut inner = RuntimeInner::new();
    inner.apply_loaded(vec![loaded("builder", "gpt-4o", 5)]);
    let agent = inner.agent_definition("builder").expect("agent exists");

    assert!(agent.config_files().is_none());
    assert!(!agent.config().model().valid());
    assert!(matches!(
        agent.config_error().expect("the config error was kept"),
        ConfigFilesError::InvalidModel(model) if model == "gpt-4o"
    ));
}

#[test]
fn an_agent_that_enables_a_tool_that_does_not_exist_is_left_unconfigured() {
    let dir = path("builder");
    let result = load_config_files(
        &registry(),
        &dir,
        PROJECT,
        scan(
            SettingsRead::Parsed(settings("openai/gpt-4o", 5, &["teleport"])),
            true,
            false,
        ),
    );
    let mut inner = RuntimeInner::new();
    inner.apply_loaded(vec![(dir, result)]);
    let definition = inner.agent_definition("builder").expect("agent exists");

    assert!(definition.config_files().is_none());
    assert!(matches!(
        definition.config_error(),
        Some(ConfigFilesError::InvalidTools(err)) if err.contains("teleport")
    ));

    let mut definition = definition;
    let err = start_session(&mut definition, String::new(), None).expect_err("cannot start");
    assert!(matches!(
        err,
        RuntimeError::ConfigFileUnreadable { name, .. } if name == AGENT_CONFIG_FILE_NAME
    ));
}

#[test]
fn reloading_the_config_of_a_started_agent_is_refused() {
    let mut inner = roster(&["builder"]);
    let mut definition = inner.agent_definition("builder").expect("agent exists");
    definition.set_state(AgentState::Idle);
    inner.set_definition("builder", definition).expect("set");

    let err = inner.reload_target("builder").expect_err("refused");

    assert!(matches!(&err, RuntimeError::AgentAlreadyStarted(id) if id == "builder"));
    assert_eq!(
        err.message(),
        "`builder` has already started, so its configuration is settled"
    );
}

#[test]
fn reloading_an_unknown_agent_is_refused() {
    let inner = roster(&["builder"]);

    let err = inner.reload_target("nobody").expect_err("unknown");

    assert!(matches!(err, RuntimeError::UnknownAgent(id) if id == "nobody"));
}

#[test]
fn an_agent_whose_config_file_appears_later_becomes_configured() {
    let mut inner = RuntimeInner::new();
    let dir = path("builder");
    let missing = load_config_files(&registry(), &dir, PROJECT, scan(SettingsRead::Missing, true, false));
    inner.apply_loaded(vec![(dir.clone(), missing)]);
    assert!(inner.agent_definition("builder").expect("agent").config_error().is_some());

    let target = inner.reload_target("builder").expect("not started");
    assert_eq!(target, dir);
    let (_, found) = loaded("builder", "mistral/large-2", 5);
    let files = inner.apply_reload("builder", found).expect("reload");

    assert!(files.complete());
    let agent = inner.agent_definition("builder").expect("agent exists");
    assert!(agent.config_error().is_none());
    assert_eq!(agent.config().model().full_slug(), "mistral/large-2");
}

#[test]
fn a_reload_that_fails_reports_the_file() {
    let mut inner = roster(&["builder"]);
    let dir = path("builder");
    let broken = load_config_files(
        &registry(),
        &dir,
        PROJECT,
        scan(SettingsRead::Unparsable("expected value".into()), true, false),
    );

    let err = inner.apply_reload("builder", broken).expect_err("unreadable");

    assert!(matches!(
        err,
        RuntimeError::ConfigFileUnreadable { name, error } if name == AGENT_CONFIG_FILE_NAME && error == "expected value"
    ));
    assert!(inner.agent_definition("builder").expect("agent").config_files().is_none());
}

#[test]
fn the_runtime_keeps_the_project_it_was_given() {
    let config = Config {
        openrouter_api_key: "sk-or-test".into(),
        openrouter_base_url: None,
        http_referer: None,
        x_openrouter_title: None,
    };
    let runtime_config = RuntimeConfig::new(PROJECT.into(), config);

    assert_eq!(runtime_config.project_dir(), PROJECT);
    assert_eq!(runtime_config.config().openrouter_api_key, "sk-or-test");
}

// Starting //////////////////////////
//////////////////////////////////////

#[test]
fn an_agent_cannot_run_until_its_config_files_are_complete() {
    let mut inner = RuntimeInner::new();
    let dir = path("builder");
    let result = load_config_files(
        &registry(),
        &dir,
        PROJECT,
        scan(SettingsRead::Parsed(settings("openai/gpt-4o", 5, &[])), false, false),
    );
    inner.apply_loaded(vec![(dir, result)]);
    let mut definition = inner.agent_definition("builder").expect("agent exists");

    let err = start_session(&mut definition, String::new(), None).expect_err("incomplete");

    assert!(matches!(err, RuntimeError::ConfigFileMissing(name) if name == AGENTS_FILE_NAME));
}

#[test]
fn an_agent_cannot_run_without_its_config_file() {
    let mut inner = RuntimeInner::new();
    let dir = path("builder");
    let missing = load_config_files(&registry(), &dir, PROJECT, scan(SettingsRead::Missing, true, false));
    inner.apply_loaded(vec![(dir, missing)]);
    let mut definition = inner.agent_definition("builder").expect("agent exists");

    let err = start_session(&mut definition, String::new(), None).expect_err("no config");

    assert!(matches!(&err, RuntimeError::ConfigFileMissing(name) if name == AGENT_CONFIG_FILE_NAME));
    assert_eq!(err.message(), "the agent's directory is missing `config.json`");
}

#[test]
fn a_directive_opens_the_conversation_and_sets_the_agent_working() {
    let mut definition = ready("builder", 5);
    let system = compose_system_prompt(&vec!["guidelines\n".to_string(), "You review code.".to_string()]);

    let step = start_session(&mut definition, system, Some("Review the parser.\n".into()))
        .expect("start");

    assert_eq!(step, Step::Request);
    assert_eq!(definition.state(), AgentState::Working);
    assert!(definition.opened_with_directive());
    assert_eq!(definition.messages()[0].content(), Some("Review the parser."));
    assert_eq!(definition.system_prompt(), "guidelines\n\nYou review code.");
}

#[test]
fn without_a_directive_the_agent_waits_for_the_user() {
    let mut definition = ready("builder", 5);

    let step = start_session(&mut definition, "guidelines".into(), None).expect("start");

    assert_eq!(step, Step::Wait);
    assert_eq!(definition.state(), AgentState::Idle);
    assert!(definition.messages().is_empty());
    assert!(definition.system_prompt().contains("guidelines"));
}

#[test]
fn an_agent_cannot_be_started_twice() {
    let mut definition = ready("builder", 5);
    start_session(&mut definition, String::new(), None).expect("start");

    let err = start_session(&mut definition, String::new(), None).expect_err("started");

    assert!(matches!(err, RuntimeError::AgentAlreadyStarted(id) if id == "builder"));
}

// A session /////////////////////////
//////////////////////////////////////

#[test]
fn a_message_sent_to_an_idle_agent_opens_the_conversation() {
    let mut definition = ready("builder", 5);
    start_session(&mut definition, String::new(), None).expect("start");

    let step = send_message(&mut definition, "Review the parser.");

    assert_eq!(step, Step::Request);
    assert_eq!(definition.state(), AgentState::Working);
    assert!(!definition.opened_with_directive());
    assert_eq!(definition.messages().len(), 1);
}

#[test]
fn a_message_sent_while_the_agent_is_working_is_queued_for_the_next_turn() {
    let mut definition = ready("builder", 5);
    start_session(&mut definition, String::new(), Some("Review the parser.".into())).expect("start");

    assert_eq!(send_message(&mut definition, "Check the lexer too."), Step::Wait);
    assert_eq!(definition.queued_messages().len(), 1);

    let reply = record_reply(&mut definition, &mut TurnProgress::new(), response(Message::assistant("on it"), Some(FinishReason::Stop)));

    // the directive and its reply, then the queued message going out
    assert!(matches!(reply, Reply::Next(Step::Request)));
    assert!(definition.queued_messages().is_empty());
    assert_eq!(definition.messages().len(), 3);
    assert!(matches!(definition.messages()[2], Message::User { .. }));
    assert_eq!(definition.usage().expect("usage").total_tokens, 15);
}

#[test]
fn a_plain_reply_finishes_the_turn() {
    let mut definition = ready("builder", 5);
    start_session(&mut definition, String::new(), None).expect("start");
    send_message(&mut definition, "hello");

    let reply = record_reply(&mut definition, &mut TurnProgress::new(), response(Message::assistant("all done"), Some(FinishReason::Stop)));

    assert!(matches!(reply, Reply::Next(Step::Wait)));
    assert_eq!(definition.state(), AgentState::Idle);
    assert_eq!(definition.messages().len(), 2);
}

#[test]
fn a_reply_asking_for_tools_hands_them_to_the_worker() {
    let mut definition = ready("builder", 5);
    start_session(&mut definition, String::new(), None).expect("start");
    send_message(&mut definition, "go");

    let reply = record_reply(
        &mut definition,
        &mut TurnProgress::new(),
        response(
            Message::assistant_tool_calls(vec![call("call_1", "end_turn", "{}")]),
            Some(FinishReason::ToolCalls),
        ),
    );

    match reply {
        Reply::RunTools(calls) => {
            assert_eq!(calls.len(), 1);
            assert_eq!(calls[0].id, "call_1");
        }
        other => panic!("expected tools to run, got {:?}", other),
    }
    assert_eq!(definition.state(), AgentState::Working);
}

#[test]
fn calling_end_turn_finishes_the_turn() {
    let mut definition = ready("builder", 5);
    start_session(&mut definition, String::new(), None).expect("start");
    send_message(&mut definition, "anything to do?");
    let mut progress = TurnProgress { requests: 1 };

    let ended = ToolResult::new(
        &call("call_1", "end_turn", "{}"),
        ToolOutput::new("turn ended".into()).set_ends_turn(true),
    );
    let step = record_tool_results(&mut definition, &mut progress, vec![ended]);

    assert_eq!(step, Step::Wait);
    assert_eq!(definition.state(), AgentState::Idle);
    assert!(matches!(definition.messages().last(), Some(Message::Tool { .. })));
}

#[test]
fn an_agent_that_never_finishes_gives_up_after_its_maximum_iterations() {
    let mut definition = ready("builder", 3);
    let tools = registry().resolve(&ToolSettings::empty()).expect("resolve");
    start_session(&mut definition, String::new(), None).expect("start");
    send_message(&mut definition, "go");
    let mut progress = TurnProgress::new();

    let mut requests = 0;
    loop {
        let request = next_request(&definition, &tools, &mut progress);
        requests += 1;
        assert_eq!(request.model, "openai/gpt-4o");
        let reply = record_reply(
            &mut definition,
            &mut progress,
            response(
                Message::assistant_tool_calls(vec![call("call_1", "bash", "{}")]),
                Some(FinishReason::ToolCalls),
            ),
        );
        let Reply::RunTools(calls) = reply else {
            panic!("expected tools to run");
        };
        let results = calls
            .iter()
            .map(|c| ToolResult::new(c, ToolOutput::new("exit code: 0".into())))
            .collect();
        if record_tool_results(&mut definition, &mut progress, results) == Step::Wait {
            break;
        }
    }

    assert_eq!(requests, 3);
    match definition.state() {
        AgentState::Failed(err) => assert!(err.contains("3 iterations"), "{}", err),
        other => panic!("expected Failed, got {:?}", other.label()),
    }
}

#[test]
fn a_message_queued_during_a_tool_loop_never_splits_a_tool_call() {
    let mut definition = ready("builder", 5);
    start_session(&mut definition, String::new(), None).expect("start");
    send_message(&mut definition, "go");
    record_reply(
        &mut definition,
        &mut TurnProgress::new(),
        response(
            Message::assistant_tool_calls(vec![call("call_1", "bash", "{}")]),
            Some(FinishReason::ToolCalls),
        ),
    );
    send_message(&mut definition, "and this too");

    let result = ToolResult::new(&call("call_1", "bash", "{}"), ToolOutput::new("ok".into()));
    let step = record_tool_results(&mut definition, &mut TurnProgress { requests: 1 }, vec![result]);

    assert_eq!(step, Step::Request);
    let messages = definition.messages();
    assert!(matches!(messages[1], Message::Assistant { .. }));
    assert!(matches!(messages[2], Message::Tool { .. }));
    assert_eq!(messages[3].content(), Some("and this too"));
}

#[test]
fn a_message_is_never_shown_as_delivered_without_reaching_the_model() {
    let mut definition = ready("builder", 1);
    start_session(&mut definition, String::new(), None).expect("start");
    send_message(&mut definition, "go");
    record_reply(
        &mut definition,
        &mut TurnProgress::new(),
        response(
            Message::assistant_tool_calls(vec![call("call_1", "bash", "{}")]),
            Some(FinishReason::ToolCalls),
        ),
    );
    send_message(&mut definition, "also do this");

    let result = ToolResult::new(&call("call_1", "bash", "{}"), ToolOutput::new("ok".into()));
    record_tool_results(&mut definition, &mut TurnProgress { requests: 1 }, vec![result]);

    match definition.state() {
        AgentState::Failed(err) => assert!(err.contains("1 iterations"), "{}", err),
        other => panic!("expected Failed, got {:?}", other.label()),
    }
    assert_eq!(definition.queued_messages().len(), 1);
    assert!(definition
        .messages()
        .iter()
        .all(|m| m.content() != Some("also do this")));
}

#[test]
fn a_refused_request_fails_the_agent_with_the_reason() {
    let mut definition = ready("builder", 5);
    start_session(&mut definition, String::new(), None).expect("start");
    send_message(&mut definition, "go");

    record_failure(&mut definition, "openrouter returned an error (status 401): no key".into());

    assert_eq!(
        definition.state().label(),
        "failed: openrouter returned an error (status 401): no key"
    );
}

#[test]
fn a_reply_with_no_choices_fails_the_agent() {
    let mut definition = ready("builder", 5);
    start_session(&mut definition, String::new(), None).expect("start");
    send_message(&mut definition, "go");
    let mut empty = response(Message::assistant("unused"), None);
    empty.choices.clear();

    let reply = record_reply(&mut definition, &mut TurnProgress::new(), empty);

    assert!(matches!(reply, Reply::Next(Step::Wait)));
    assert_eq!(
        definition.state(),
        AgentState::Failed("the response contained no choices".into())
    );
}

#[test]
fn every_request_carries_the_conversation_and_the_tools() {
    let mut definition = ready("builder", 5);
    let tools = registry().resolve(&ToolSettings::empty()).expect("resolve");
    start_session(&mut definition, "guidelines".into(), Some("Review the parser.".into()))
        .expect("start");
    let mut progress = TurnProgress::new();

    let request = next_request(&definition, &tools, &mut progress);

    assert_eq!(progress.requests, 1);
    assert_eq!(request.messages.len(), 2);
    assert!(matches!(request.messages[0], Message::System { .. }));
    let offered: Vec<String> = request
        .tools
        .expect("tools go out")
        .iter()
        .map(|t| t.function.name.clone())
        .collect();
    assert_eq!(offered, vec!["end_turn".to_string()]);
    assert!(request.tool_choice.is_none());
}

// Classifying replies ///////////////
//////////////////////////////////////

fn choice(message: Message, finish_reason: Option<FinishReason>) -> Choice {
    Choice {
        index: 0,
        message,
        finish_reason,
    }
}

#[test]
fn a_reply_is_classified_by_its_calls_then_its_finish_reason() {
    let calls = Message::assistant_tool_calls(vec![call("call_1", "bash", "{}")]);

    assert_eq!(classify(&choice(calls, Some(FinishReason::Length))), Turn::Continue);
    assert_eq!(classify(&choice(Message::assistant("hi"), None)), Turn::Done);
    assert_eq!(classify(&choice(Message::assistant("hi"), Some(FinishReason::Stop))), Turn::Done);
    assert_eq!(
        classify(&choice(Message::assistant("hi"), Some(FinishReason::ToolCalls))),
        Turn::Failed("the model asked for tool calls but sent none".into())
    );
    assert_eq!(
        classify(&choice(Message::assistant("hi"), Some(FinishReason::Length))),
        Turn::Failed("response was truncated".into())
    );
    assert_eq!(
        classify(&choice(Message::assistant("hi"), Some(FinishReason::ContentFilter))),
        Turn::Failed("stopped by content filter".into())
    );
    assert_eq!(
        classify(&choice(Message::assistant("hi"), Some(FinishReason::Other))),
        Turn::Failed("stopped for an unknown reason".into())
    );
}

#[test]
fn a_blank_part_of_the_system_prompt_is_left_out() {
    assert_eq!(
        compose_system_prompt(&vec!["  ".to_string(), "purpose".to_string()]),
        "purpose"
    );
    assert_eq!(compose_system_prompt(&vec![]), "");
}

#[test]
fn a_message_to_a_failed_agent_goes_out_behind_what_was_still_waiting() {
    let mut definition = ready("builder", 5);
    start_session(&mut definition, String::new(), None).expect("start");
    send_message(&mut definition, "first");
    send_message(&mut definition, "second");
    record_failure(&mut definition, "the request failed".into());

    let step = send_message(&mut definition, "third");

    assert_eq!(step, Step::Request);
    let contents: Vec<&str> = definition
        .messages()
        .iter()
        .map(|m| m.content().expect("content"))
        .collect();
    assert_eq!(contents, vec!["first", "second", "third"]);
    assert!(definition.queued_messages().is_empty());
}

#[test]
fn a_turn_taken_up_from_the_queue_counts_its_requests_afresh() {
    let mut definition = ready("builder", 5);
    start_session(&mut definition, String::new(), None).expect("start");
    send_message(&mut definition, "go");
    send_message(&mut definition, "and then this");
    let mut progress = TurnProgress { requests: 4 };

    let reply = record_reply(
        &mut definition,
        &mut progress,
        response(Message::assistant("done"), Some(FinishReason::Stop)),
    );

    assert!(matches!(reply, Reply::Next(Step::Request)));
    assert_eq!(progress.requests, 0);
}

#[test]
fn a_turn_that_carries_on_keeps_counting() {
    let mut definition = ready("builder", 5);
    start_session(&mut definition, String::new(), None).expect("start");
    send_message(&mut definition, "go");
    let mut progress = TurnProgress { requests: 2 };

    let result = ToolResult::new(&call("call_1", "bash", "{}"), ToolOutput::new("ok".into()));
    let step = record_tool_results(&mut definition, &mut progress, vec![result]);

    assert_eq!(step, Step::Request);
    assert_eq!(progress.requests, 2);
}

#[test]
fn a_directory_without_an_agents_file_is_still_loaded_but_incomplete() {
    let mut inner = RuntimeInner::new();
    let dir = path("incomplete");
    let result = load_config_files(
        &registry(),
        &dir,
        PROJECT,
        scan(SettingsRead::Parsed(settings("openai/gpt-4o", 5, &[])), false, false),
    );
    inner.apply_loaded(vec![(dir, result)]);

    let agent = inner.agent_definition("incomplete").expect("agent exists");
    assert!(!agent
        .config_files()
        .expect("config files were read")
        .complete());
}

#[test]
fn an_agent_without_a_tools_block_is_only_offered_end_turn() {
    let dir = path("builder");
    let (_, tools) = load_config_files(
        &registry(),
        &dir,
        PROJECT,
        scan(SettingsRead::Parsed(settings("openai/gpt-4o", 5, &[])), true, false),
    )
    .expect("load");

    let offered: Vec<String> = tools
        .definitions()
        .iter()
        .map(|tool| tool.function.name.clone())
        .collect();
    assert_eq!(offered, vec!["end_turn".to_string()]);
}
