use apila::runtime::agent_config::{
    AgentConfig, AgentSettings, ConfigFiles, ConfigFilesError, DirScan, Model, SettingsRead,
    ToolSettings, AGENTS_FILE_NAME, AGENT_CONFIG_FILE_NAME, DIRECTIVE_FILE_NAME,
    SYSTEM_FILE_NAME,
};

/// The iteration bound an agent gets unless a test names another one.
const TEST_MAX_ITERATIONS: u32 = 10;

fn settings(model: &str, max_iterations: u32) -> AgentSettings {
    AgentSettings {
        model: model.to_string(),
        agent_max_iterations: max_iterations,
        tools: ToolSettings::empty(),
    }
}

/// An agent directory holding its `AGENTS.md`, in a project whose `SYSTEM.md`
/// it shares, with `config.json` read as `read`.
fn scan(read: SettingsRead) -> DirScan {
    DirScan {
        config_present: !matches!(read, SettingsRead::Missing),
        settings: read,
        agents_present: true,
        local_system_present: false,
        project_system_present: true,
        directive_present: false,
    }
}

fn load(scan: DirScan) -> Result<ConfigFiles, ConfigFilesError> {
    ConfigFiles::load("project/worker", "project", scan)
}

#[test]
fn the_maximum_iterations_are_read_out_of_the_agent_config_file() {
    let config_files =
        load(scan(SettingsRead::Parsed(settings("openai/gpt-4o", 42)))).expect("load config files");

    assert_eq!(config_files.agent_max_iterations(), 42);
    assert_eq!(config_files.settings().agent_max_iterations, 42);
}

/// A turn allowed no iterations would end before it began.
#[test]
fn a_maximum_iteration_count_of_zero_is_reported() {
    let err = load(scan(SettingsRead::Parsed(settings("openai/gpt-4o", 0)))).expect_err("zero bound");

    assert!(matches!(err, ConfigFilesError::InvalidMaxIterations));
}

#[test]
fn an_agent_config_file_without_a_tools_block_enables_nothing() {
    let config_files = load(scan(SettingsRead::Parsed(settings(
        "openai/gpt-4o",
        TEST_MAX_ITERATIONS,
    ))))
    .expect("load config files");

    assert_eq!(config_files.agent_max_iterations(), TEST_MAX_ITERATIONS);
    assert!(config_files.tool_settings().enabled.is_empty());
    assert!(config_files.tool_settings().configs.is_empty());
}

#[test]
fn config_files_fall_back_to_the_project_system_file() {
    let config_files =
        load(scan(SettingsRead::Parsed(settings("openai/gpt-4o", 5)))).expect("load config files");

    assert!(config_files.complete());
    assert_eq!(
        config_files.system_file().path(),
        format!("project/{}", SYSTEM_FILE_NAME)
    );
}

#[test]
fn config_files_prefer_the_agents_own_system_file() {
    let mut local = scan(SettingsRead::Parsed(settings("openai/gpt-4o", 5)));
    local.local_system_present = true;

    let config_files = load(local).expect("load config files");

    assert_eq!(
        config_files.system_file().path(),
        format!("project/worker/{}", SYSTEM_FILE_NAME)
    );
}

#[test]
fn config_files_are_incomplete_when_the_agents_file_is_missing() {
    let mut without = scan(SettingsRead::Parsed(settings("openai/gpt-4o", 5)));
    without.agents_present = false;

    let config_files = load(without).expect("load config files");

    assert!(!config_files.complete());
    assert_eq!(
        config_files.missing_file().expect("a file is missing").name(),
        AGENTS_FILE_NAME
    );
}

#[test]
fn config_files_are_incomplete_when_the_system_file_is_missing_everywhere() {
    let mut without = scan(SettingsRead::Parsed(settings("openai/gpt-4o", 5)));
    without.project_system_present = false;

    let config_files = load(without).expect("load config files");

    assert!(!config_files.complete());
    assert_eq!(
        config_files.missing_file().expect("a file is missing").name(),
        SYSTEM_FILE_NAME
    );
}

#[test]
fn the_directive_is_optional() {
    let config_files =
        load(scan(SettingsRead::Parsed(settings("openai/gpt-4o", 5)))).expect("load config files");

    assert!(!config_files.directive_file().present());
    assert!(!config_files.directive_file().required());
    assert_eq!(config_files.directive_file().name(), DIRECTIVE_FILE_NAME);
    assert!(config_files.complete());
}

#[test]
fn nothing_loads_without_the_agent_config_file() {
    let err = load(scan(SettingsRead::Missing)).expect_err("no config file");

    match err {
        ConfigFilesError::Missing { name, path } => {
            assert_eq!(name, AGENT_CONFIG_FILE_NAME);
            assert_eq!(path, format!("project/worker/{}", AGENT_CONFIG_FILE_NAME));
        }
        other => panic!("expected Missing, got {:?}", other),
    }
}

#[test]
fn an_unreadable_agent_config_file_is_reported() {
    let err = load(scan(SettingsRead::Unparsable("expected value at line 1".into())))
        .expect_err("not json");

    match err {
        ConfigFilesError::Unreadable { name, error, .. } => {
            assert_eq!(name, AGENT_CONFIG_FILE_NAME);
            assert_eq!(error, "expected value at line 1");
        }
        other => panic!("expected Unreadable, got {:?}", other),
    }
}

#[test]
fn an_agent_config_file_naming_no_usable_model_is_reported() {
    let err = load(scan(SettingsRead::Parsed(settings("gpt-4o", 5)))).expect_err("no author");

    assert!(matches!(err, ConfigFilesError::InvalidModel(model) if model == "gpt-4o"));
    assert_eq!(
        ConfigFilesError::InvalidModel("gpt-4o".into()).message(),
        "`model` is not an \"author/slug\" id: gpt-4o"
    );
}

#[test]
fn the_settings_are_read_out_of_the_agent_config_file() {
    let config_files = load(scan(SettingsRead::Parsed(settings("mistral/large-2", 5))))
        .expect("load config files");

    assert_eq!(config_files.model().full_slug(), "mistral/large-2");
    assert_eq!(config_files.settings().model, "mistral/large-2");
}

#[test]
fn a_model_id_splits_at_its_first_slash() {
    let model = Model::parse("meta/llama/3").expect("a model");

    assert_eq!(model.author, "meta");
    assert_eq!(model.slug, "llama/3");
    assert_eq!(model.full_slug(), "meta/llama/3");
    assert!(Model::parse("gpt-4o").is_none());
    assert!(Model::parse("/gpt-4o").is_none());
    assert!(Model::parse("openai/").is_none());
    assert!(!Model::empty().valid());
}

#[test]
fn clearing_the_settings_keeps_the_name_and_directory() {
    let config = AgentConfig::empty()
        .set_name("worker".into())
        .set_dir("project/worker".into())
        .set_model(Model::parse("openai/gpt-4o").expect("a model"))
        .clear_settings();

    assert_eq!(config.name(), "worker");
    assert_eq!(config.dir(), "project/worker");
    assert!(!config.model().valid());
    assert_eq!(config.max_iterations(), 0);
}

#[test]
fn an_agent_config_file_without_a_maximum_iteration_count_is_unreadable() {
    let reason = "missing field `agent_max_iterations` at line 1 column 27";
    let err = load(scan(SettingsRead::Unparsable(reason.to_string()))).expect_err("no bound");

    match err {
        ConfigFilesError::Unreadable { name, error, .. } => {
            assert_eq!(name, AGENT_CONFIG_FILE_NAME);
            assert!(error.contains("agent_max_iterations"), "{}", error);
        }
        other => panic!("expected Unreadable, got {:?}", other),
    }
}
