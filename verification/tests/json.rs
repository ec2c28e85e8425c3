use apila::runtime::tool_registry::parse_arguments;
use apila::tools::bash::{BashSettings, BashTool};
use apila::tools::end_turn::EndTurnTool;
use apila::tools::tool::{Tool, ToolContext, ToolError, ToolState};

fn context(config: &str) -> ToolContext {
    ToolContext::new(".".to_string(), config.to_string())
}

#[test]
fn only_an_object_or_nothing_is_taken_as_arguments() {
    assert_eq!(parse_arguments("{}").expect("an object"), "{}");
    assert_eq!(parse_arguments("null").expect("no arguments"), "{}");
    for not_an_object in ["[1]", "\"x\"", "7", "true"] {
        assert_eq!(
            parse_arguments(not_an_object).expect_err("not an object"),
            "arguments must be a json object"
        );
    }
}

#[test]
fn arguments_are_read_as_an_object() {
    assert_eq!(parse_arguments("").expect("no arguments"), "{}");
    assert_eq!(parse_arguments("  null ").expect("no arguments"), "{}");
    assert_eq!(
        parse_arguments(r#"{"command": "ls"}"#).expect("an object"),
        r#"{"command": "ls"}"#
    );
    assert!(parse_arguments("{ not json")
        .expect_err("not json")
        .starts_with("arguments were not valid json: "));
}

#[test]
fn a_string_field_is_read_unescaped() {
    let state = BashTool::new().new_state(&context("{}")).expect("start the tool");
    assert_eq!(
        state.command(r#"{"command": "printf 'a\nb'"}"#).expect("a command"),
        "printf 'a\nb'"
    );
    assert!(matches!(
        state.command(r#"{"command": ["ls"]}"#),
        Err(ToolError::InvalidArgument { .. })
    ));
    assert!(matches!(
        state.command(r#"{"other": "ls"}"#),
        Err(ToolError::MissingArgument { .. })
    ));
}

#[test]
fn a_summary_that_is_not_a_string_is_left_out() {
    let mut state = EndTurnTool::new().new_state(&context("{}")).expect("start the tool");
    let output = state
        .run(&context("{}"), r#"{"summary": 7}"#)
        .expect("end the turn");
    assert_eq!(output.content(), "turn ended");
    let output = state
        .run(&context("{}"), r#"{"summary": "a \"quoted\" word"}"#)
        .expect("end the turn");
    assert_eq!(output.content(), "turn ended: a \"quoted\" word");
}

#[test]
fn only_a_whole_number_of_seconds_that_fits_is_a_timeout() {
    assert_eq!(
        BashSettings::parse(r#"{"bash_timeout": 30}"#).expect("a timeout").timeout_secs(),
        30
    );
    for not_a_timeout in [
        r#"{"bash_timeout": -1}"#,
        r#"{"bash_timeout": 1.5}"#,
        r#"{"bash_timeout": "30"}"#,
    ] {
        assert!(BashSettings::parse(not_a_timeout).is_err(), "{}", not_a_timeout);
    }
}

#[test]
fn every_key_of_a_settings_block_is_looked_at() {
    let err = BashSettings::parse(r#"{"bash_timeout": 5, "shell": "zsh"}"#)
        .expect_err("an unknown key");
    assert_eq!(err, "unknown field `shell`, expected `bash_timeout`");
    assert!(BashSettings::parse("[]").is_err());
    assert!(BashSettings::parse("{}").is_ok());
}
