use apila::tools::bash::{
    default_bash_timeout, past_deadline, report, BashSettings, BashTool, Outcome, Stream,
    DEFAULT_BASH_TIMEOUT,
    MAX_STREAM_BYTES,
};
use apila::tools::tool::{ToolContext, ToolError};

/// The command a started bash tool would run for `arguments`, or why the call
/// is refused before anything runs.
fn command(config: &str, arguments: &str) -> Result<String, ToolError> {
    let context = ToolContext::new(".".to_string(), config.to_string());
    let state = BashTool::new().new_state(&context).expect("start the tool");
    state.command(arguments)
}

#[test]
fn a_call_without_a_command_is_an_error() {
    let err = command("{}", "{}").expect_err("no command");

    assert!(matches!(err, ToolError::MissingArgument { argument } if argument == "command"));
}

#[test]
fn a_command_that_is_not_a_string_is_an_error() {
    let err = command("{}", r#"{"command": 7}"#).expect_err("not a string");

    assert!(matches!(err, ToolError::InvalidArgument { argument, .. } if argument == "command"));
}

#[test]
fn an_empty_command_is_an_error() {
    let err = command("{}", r#"{"command": "   "}"#).expect_err("empty command");

    assert!(matches!(err, ToolError::InvalidArgument { .. }));
}

/// A misspelled setting does nothing at all if it is quietly ignored, so it is
/// refused when the agent's files are read instead.
#[test]
fn a_misspelled_setting_is_rejected_when_the_config_is_checked() {
    let err = BashTool::new()
        .validate_config(r#"{"bash_timout": 30}"#)
        .expect_err("unknown field");

    assert!(err.contains("bash_timout"), "{}", err);
}

#[test]
fn the_settings_are_read_once_when_the_tool_starts() {
    let context = ToolContext::new(".".to_string(), r#"{"bash_timout": 30}"#.to_string());

    let err = BashTool::new()
        .new_state(&context)
        .err()
        .expect("bad settings");

    assert!(matches!(err, ToolError::InvalidConfig { .. }));
}

#[test]
fn the_timeout_falls_back_to_the_default_when_the_config_leaves_it_out() {
    let settings = BashSettings::parse("{}").expect("settings");

    assert_eq!(settings.timeout_secs(), DEFAULT_BASH_TIMEOUT);
    assert_eq!(default_bash_timeout(), 120);
}

#[test]
fn the_timeout_is_read_out_of_the_config() {
    let settings = BashSettings::parse(r#"{"bash_timeout": 30}"#).expect("settings");

    assert_eq!(settings.timeout_secs(), 30);
}

#[test]
fn a_timeout_that_is_not_a_whole_number_of_seconds_is_refused() {
    assert!(BashSettings::parse(r#"{"bash_timeout": "soon"}"#).is_err());
    assert!(BashSettings::parse(r#"{"bash_timeout": -1}"#).is_err());
}

#[test]
fn a_command_is_passed_on_as_it_was_written() {
    assert_eq!(
        command("{}", r#"{"command": "ls -la | head"}"#).expect("a command"),
        "ls -la | head"
    );
}

#[test]
fn output_longer_than_the_limit_is_cut_short() {
    let mut stream = Stream::new();
    let chunk = vec![b'a'; 1000];
    for _ in 0..200 {
        stream.push(&chunk);
    }

    let content = stream.render(true);

    assert_eq!(stream.total(), 200_000);
    assert!(content.contains("… truncated,"), "cut short");
    assert!(
        content.len() < MAX_STREAM_BYTES + 512,
        "the output was not bounded: {} bytes",
        content.len()
    );
    assert!(
        content.contains(&format!("{} more bytes", 200_000 - MAX_STREAM_BYTES)),
        "the dropped byte count is wrong: {}",
        &content[content.len().saturating_sub(120)..]
    );
}

#[test]
fn output_within_the_limit_is_kept_whole() {
    let mut stream = Stream::new();
    stream.push(b"hello\n");

    assert_eq!(stream.render(true), "hello\n");
}

#[test]
fn the_exit_code_and_the_error_output_come_back() {
    let out = Stream::new();
    let mut err = Stream::new();
    err.push(b"boom\n");

    let content = report(Outcome::Exited { code: Some(3) }, 120, &out, true, &err, true).content();

    assert!(content.contains("exit code: 3"), "{}", content);
    assert!(content.contains("boom"), "{}", content);
    assert!(content.contains("stdout:\n(none)"), "{}", content);
}

#[test]
fn a_command_that_runs_too_long_is_reported_as_timed_out() {
    let out = Stream::new();
    let err = Stream::new();

    let content = report(Outcome::TimedOut { group_killed: true }, 1, &out, true, &err, true).content();

    assert!(content.contains("timed out after 1s"), "{}", content);
    assert!(content.contains("everything it started were killed"), "{}", content);
}

#[test]
fn a_command_killed_by_a_signal_says_so() {
    let out = Stream::new();
    let err = Stream::new();

    let content = report(Outcome::Exited { code: None }, 120, &out, true, &err, true).content();

    assert!(content.starts_with("killed by a signal"), "{}", content);
}

#[test]
fn a_command_is_killed_once_its_whole_timeout_has_passed() {
    assert!(!past_deadline(1_999, 2));
    assert!(past_deadline(2_000, 2));
    assert!(past_deadline(0, 0));
    assert!(!past_deadline(u64::MAX, u64::MAX));
}
