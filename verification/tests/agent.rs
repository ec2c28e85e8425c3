use apila::openrouter::types::Message;
use apila::runtime::agent::{Agent, AgentDefinition, AgentState};
use apila::runtime::agent_config::{
    AgentConfig, AgentSettings, ConfigFiles, ConfigFilesError, DirScan, Model, SettingsRead,
    ToolSettings,
};
use apila::runtime::tool_registry::ToolRegistry;
use apila::tools::end_turn::EndTurnTool;

/// An agent the way the runtime makes one: named after its directory, with
/// nothing read off disk yet.
fn agent(name: &str) -> Agent {
    let config = AgentConfig::empty()
        .set_name(name.to_string())
        .set_model(Model::empty())
        .set_dir(name.to_string());
    Agent::new(name.to_string(), config)
}

/// A `ConfigFilesError` to hand to an agent, standing in for whatever went
/// wrong with its `config.json`.
fn config_error() -> ConfigFilesError {
    ConfigFilesError::InvalidModel("gpt-4o".into())
}

/// What an agent directory holding every file it needs comes to.
fn complete_scan() -> DirScan {
    DirScan {
        config_present: true,
        settings: SettingsRead::Parsed(AgentSettings {
            model: "openai/gpt-4o".into(),
            agent_max_iterations: 10,
            tools: ToolSettings::empty(),
        }),
        agents_present: true,
        local_system_present: false,
        project_system_present: true,
        directive_present: false,
    }
}

#[test]
fn a_new_agent_starts_out_configuring_with_nothing_read() {
    let agent = agent("builder");
    let definition = agent.agent_definition();

    assert_eq!(agent.id(), "builder");
    assert_eq!(definition.state(), AgentState::Configuring);
    assert!(definition.config_files().is_none());
    assert!(definition.config_error().is_none());
    assert!(definition.messages().is_empty());
}

#[test]
fn config_files_and_a_config_error_replace_one_another() {
    let config_files =
        ConfigFiles::load("project/builder", "project", complete_scan()).expect("load config files");

    let mut agent = agent("builder");
    let definition = agent.definition_mut();

    let tools = ToolRegistry::new()
        .register(EndTurnTool::new())
        .resolve(&config_files.tool_settings())
        .expect("resolve tools");

    definition.set_config_files(config_files, tools.names());
    assert!(definition.config_files().is_some());
    assert!(definition.config_error().is_none());
    // end_turn is on for every agent, so a configured agent always has one
    assert_eq!(definition.tool_names(), vec!["end_turn".to_string()]);

    // the files no longer say what the agent holds, so they go with the error,
    // and so do the tools they were read into
    definition.set_config_error(config_error());
    assert!(definition.config_files().is_none());
    assert!(definition.config_error().is_some());
    assert!(definition.tool_names().is_empty());
}

#[test]
fn the_system_prompt_opens_the_request_messages() {
    let mut agent = agent("builder");
    let definition = agent.definition_mut();
    definition.set_system_prompt("guidelines".into());
    definition.push_message(Message::user("hello"));

    let messages = definition.request_messages();

    assert_eq!(messages.len(), 2);
    assert!(matches!(messages[0], Message::System { .. }));
    assert!(matches!(messages[1], Message::User { .. }));
}

#[test]
fn an_empty_system_prompt_is_left_out_of_the_request_messages() {
    let mut agent = agent("builder");
    let definition = agent.definition_mut();
    definition.set_system_prompt("   ".into());
    definition.push_message(Message::user("hello"));

    let messages = definition.request_messages();

    assert_eq!(messages.len(), 1);
    assert!(matches!(messages[0], Message::User { .. }));
}

#[test]
fn test_agent_a_directive_opens_the_conversation_as_a_user_turn() {
    let mut agent = agent("builder");
    let definition = agent.definition_mut();

    definition.push_directive("Review the parser.");

    assert!(definition.opened_with_directive());
    assert_eq!(definition.messages().len(), 1);
    assert!(matches!(definition.messages()[0], Message::User { .. }));
}

#[test]
fn a_conversation_the_user_opened_is_not_a_directive() {
    let mut agent = agent("builder");
    let definition = agent.definition_mut();

    definition.push_message(Message::user("hello"));
    definition.push_directive("Review the parser.");

    assert!(!definition.opened_with_directive());
}

#[test]
fn a_later_directive_leaves_the_opening_one_in_place() {
    let mut agent = agent("builder");
    let definition = agent.definition_mut();

    definition.push_directive("Review the parser.");
    definition.push_directive("Then the lexer.");

    assert!(definition.opened_with_directive());
    assert_eq!(definition.messages()[0].content(), Some("Review the parser."));
}

#[test]
fn only_a_started_agent_holds_a_conversation() {
    assert!(!AgentState::Configuring.started());
    assert!(AgentState::Working.started());
    assert!(AgentState::Idle.started());
    assert!(AgentState::Failed("boom".into()).started());
}

#[test]
fn a_failed_state_says_what_went_wrong() {
    assert_eq!(AgentState::Configuring.label(), "configuring");
    assert_eq!(AgentState::Failed("boom".into()).label(), "failed: boom");
}

/// The ui reads an agent through this snapshot, so it has to carry the state
/// the definition was in when it was taken.
#[test]
fn the_definition_is_a_snapshot_of_the_agent() {
    let mut agent = agent("builder");
    agent.definition_mut().set_state(AgentState::Idle);

    let definition: AgentDefinition = agent.agent_definition();
    agent.definition_mut().set_state(AgentState::Working);

    assert_eq!(definition.state(), AgentState::Idle);
    assert_eq!(agent.agent_definition().state(), AgentState::Working);
}

#[test]
fn a_queued_message_joins_the_conversation_when_it_is_taken_up() {
    let mut agent = agent("builder");
    let definition = agent.definition_mut();
    definition.push_message(Message::user("hello"));

    definition.queue_message(Message::user("and one more thing"));
    // it waits its turn rather than joining the conversation on the spot
    assert_eq!(definition.messages().len(), 1);
    assert_eq!(definition.queued_messages().len(), 1);

    definition.take_queued_messages();

    assert_eq!(definition.messages().len(), 2);
    assert!(definition.queued_messages().is_empty());
}

#[test]
fn the_other_states_are_labelled_by_name() {
    assert_eq!(AgentState::Working.label(), "working");
    assert_eq!(AgentState::Idle.label(), "idle");
}

#[test]
fn a_queued_message_keeps_its_place_behind_the_conversation() {
    let mut agent = agent("builder");
    let definition = agent.definition_mut();
    definition.push_message(Message::user("first"));
    definition.queue_message(Message::user("second"));
    definition.queue_message(Message::user("third"));

    definition.take_queued_messages();

    let contents: Vec<&str> = definition
        .messages()
        .iter()
        .map(|m| m.content().expect("a user message has content"))
        .collect();
    assert_eq!(contents, vec!["first", "second", "third"]);
}
