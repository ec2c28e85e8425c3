use apila::openrouter::types::{FunctionCall, Message, ToolCall};
use apila::runtime::agent::{Agent, AgentState};
use apila::runtime::agent_config::{
    AgentConfig, AgentSettings, ConfigFiles, DirScan, SettingsRead, ToolSettings,
};
use apila::tui::app::{
    dir_line, enter_label, file_mark, focus, human_tokens, instruction_pairs, message_lines,
    one_line, ready_tail, scroll_offset, select_offset, tools_line, transcript, wrap, Args,
    Focus, MessageLines, TUIAppError, TranscriptPart, detail_view, DetailView,
};

/// Every line the transcript draws for a message: the label, the text, the
/// note under cut output, the tool calls and the blank line after.
fn rendered(lines: &MessageLines) -> Vec<String> {
    let mut out = vec![lines.label.clone()];
    out.extend(lines.body.iter().cloned());
    out.extend(lines.more.iter().cloned());
    out.extend(lines.calls.iter().cloned());
    out.push(String::new());
    out
}

// Wrapping //////////////////////////
//////////////////////////////////////

#[test]
fn wrapping_keeps_the_authors_own_line_breaks() {
    let lines = wrap("one two\nthree", 20);

    assert_eq!(lines, vec!["one two".to_string(), "three".to_string()]);
}

/// Every line that comes back has to fit, or a caller counting lines is
/// counting something other than what gets drawn.
#[test]
fn a_run_of_characters_with_nothing_to_wrap_on_is_still_broken_up() {
    let lines = wrap(&"a".repeat(25), 10);

    assert_eq!(lines.len(), 3);
    assert!(lines.iter().all(|line| line.chars().count() <= 10), "{:?}", lines);
    assert_eq!(lines.concat(), "a".repeat(25));
}

#[test]
fn wrapping_never_returns_a_line_wider_than_it_was_asked_for() {
    let text = "short ".to_string() + &"z".repeat(40) + " end";

    for width in 1..12 {
        let lines = wrap(&text, width);
        assert!(
            lines.iter().all(|line| line.chars().count() <= width),
            "width {} produced {:?}",
            width,
            lines
        );
    }
}

/// A zero width is what an area too small to draw in reports, and it must not
/// leave the wrap looking for a fit that cannot exist.
#[test]
fn wrapping_to_no_width_at_all_still_finishes() {
    let lines = wrap("abc def", 0);

    assert!(lines.iter().all(|line| line.chars().count() <= 1), "{:?}", lines);
}

/// Characters wider than a byte must not be cut in the middle.
#[test]
fn wrapping_breaks_between_characters_rather_than_inside_one() {
    let lines = wrap(&"é".repeat(10), 4);

    assert_eq!(lines.concat(), "é".repeat(10));
    assert!(lines.iter().all(|line| line.chars().count() <= 4), "{:?}", lines);
}

/// The transcript shows the head of a long tool result and says how much more
/// there was.
#[test]
fn a_long_tool_result_is_capped_in_the_transcript() {
    let message = Message::tool("call_1", &"x".repeat(4_000));

    let lines = rendered(&message_lines(&message, 40, false));

    // the label, the lines it kept, the note, and the blank line after
    assert!(lines.len() < 20, "{} lines", lines.len());
    assert!(lines.iter().any(|line| line.contains("more lines")), "{:?}", lines);
}

// Whitespace ////////////////////////
//////////////////////////////////////

/// The transcript carries file contents and command output. A diff or a listing
/// whose spacing has been tidied away is no longer the thing the agent saw.
#[test]
fn wrapping_keeps_a_listings_columns_exactly_as_they_were() {
    let listing = "-rw-r--r--  1 alek alek  4096 Sep  7 20:50 config.json";

    let lines = wrap(listing, 80);

    assert_eq!(lines, vec![listing.to_string()]);
}

#[test]
fn wrapping_keeps_leading_indentation() {
    // eight spaces, then enough to have to wrap at twelve columns
    let lines = wrap("        def f():", 12);

    assert!(
        lines[0].starts_with("        "),
        "indentation was lost: {:?}",
        lines
    );
    assert_eq!(lines.concat(), "        def f():");
}

#[test]
fn wrapping_keeps_blank_lines() {
    let lines = wrap("one\n\ntwo", 20);

    assert_eq!(
        lines,
        vec!["one".to_string(), String::new(), "two".to_string()]
    );
}

/// Nothing is dropped and nothing is added, so what is drawn is what the model
/// was shown.
#[test]
fn wrapping_gives_back_every_character_it_was_given() {
    let text = "aaa bbb ccc ddd";

    for width in 1..20 {
        let lines = wrap(text, width);
        assert_eq!(lines.concat(), text, "width {} changed the text", width);
        assert!(
            lines.iter().all(|line| line.chars().count() <= width),
            "width {} produced {:?}",
            width,
            lines
        );
    }
}

#[test]
fn a_line_is_broken_after_a_space_rather_than_inside_a_word() {
    let lines = wrap("hello world", 8);

    assert_eq!(lines, vec!["hello ".to_string(), "world".to_string()]);
}

/// A tab cannot be placed in a cell, so it has to become the spaces a terminal
/// would have drawn for it or a tab indented file renders ragged.
#[test]
fn tabs_are_expanded_to_the_columns_a_terminal_would_use() {
    assert_eq!(wrap("\tfoo", 40), vec!["        foo".to_string()]);
    // from column one, the next stop is still eight
    assert_eq!(wrap("a\tb", 40), vec!["a       b".to_string()]);
}

#[test]
fn a_carriage_return_at_the_end_of_a_line_is_not_drawn() {
    let lines = wrap("one\r\ntwo", 20);

    assert_eq!(lines, vec!["one".to_string(), "two".to_string()]);
}

/// Whitespace is kept, but a run of it with nothing to break on still has to be
/// cut, or a line cap counts something other than what is drawn.
#[test]
fn a_long_run_of_spaces_is_still_broken_up() {
    let lines = wrap(&" ".repeat(25), 10);

    assert_eq!(lines.len(), 3);
    assert!(lines.iter().all(|line| line.chars().count() <= 10), "{:?}", lines);
    assert_eq!(lines.concat(), " ".repeat(25));
}

#[test]
fn an_empty_text_is_one_empty_line() {
    assert_eq!(wrap("", 10), vec![String::new()]);
}

#[test]
fn a_tab_after_a_wide_run_goes_to_the_next_stop() {
    assert_eq!(wrap("abcdefgh\tx", 40), vec!["abcdefgh        x".to_string()]);
}

// The transcript ////////////////////
//////////////////////////////////////

#[test]
fn the_opening_directive_is_not_labelled_as_the_user() {
    assert_eq!(message_lines(&Message::user("go"), 40, true).label, "directive");
    assert_eq!(message_lines(&Message::user("go"), 40, false).label, "you");
    assert_eq!(message_lines(&Message::assistant("ok"), 40, false).label, "agent");
    assert_eq!(message_lines(&Message::system("rules"), 40, false).label, "system");
}

#[test]
fn a_tool_result_shows_twelve_lines_and_counts_the_rest() {
    let output: Vec<String> = (0..20).map(|i| format!("line {}", i)).collect();
    let message = Message::tool("call_1", &output.join("\n"));

    let lines = message_lines(&message, 40, false);

    assert_eq!(lines.label, "tool");
    assert_eq!(lines.body.len(), 12);
    assert_eq!(lines.body[11], "line 11");
    assert_eq!(lines.more.as_deref(), Some("  … 8 more lines"));
}

#[test]
fn the_model_s_own_text_is_never_capped() {
    let text: Vec<String> = (0..20).map(|i| format!("line {}", i)).collect();

    let lines = message_lines(&Message::assistant(&text.join("\n")), 40, false);

    assert_eq!(lines.body.len(), 20);
    assert!(lines.more.is_none());
}

#[test]
fn a_tool_call_is_shown_on_one_line() {
    let call = ToolCall {
        id: "call_1".into(),
        call_type: "function".into(),
        function: FunctionCall {
            name: "bash".into(),
            arguments: "{\"command\":\n\"ls\"}".into(),
        },
    };

    let lines = message_lines(&Message::assistant_tool_calls(vec![call]), 40, false);

    assert!(lines.body.is_empty() || lines.body == vec![String::new()]);
    assert_eq!(lines.calls, vec!["  → bash({\"command\": \"ls\"})".to_string()]);
}

#[test]
fn one_line_cuts_what_does_not_fit_with_an_ellipsis() {
    assert_eq!(one_line("a\nb", 10), "a b");
    assert_eq!(one_line("abcdef", 4), "abc…");
    assert_eq!(one_line("abcdef", 6), "abcdef");
    assert_eq!(one_line("abc", 0), "…");
}

#[test]
fn token_counts_are_put_compactly() {
    assert_eq!(human_tokens(950), "950");
    assert_eq!(human_tokens(24_000), "24k");
    assert_eq!(human_tokens(1_000_000), "1M");
    assert_eq!(human_tokens(1_999), "1k");
}

// Keys //////////////////////////////
//////////////////////////////////////

#[test]
fn the_selection_is_clamped_to_the_rows_there_are() {
    assert_eq!(select_offset(Some(0), -1, 3), Some(0));
    assert_eq!(select_offset(Some(2), 1, 3), Some(2));
    assert_eq!(select_offset(Some(1), 1, 3), Some(2));
    assert_eq!(select_offset(None, 1, 3), Some(0));
    assert_eq!(select_offset(Some(5), 0, 3), Some(2));
    assert_eq!(select_offset(Some(1), 0, 0), None);
}

#[test]
fn keys_go_to_the_chat_only_of_a_started_agent() {
    assert_eq!(focus(true, true), Focus::Chat);
    assert_eq!(focus(true, false), Focus::Agents);
    assert_eq!(focus(false, true), Focus::Agents);
}

#[test]
fn the_key_hints_follow_the_focus() {
    let agents = instruction_pairs(Focus::Agents, "Chat");
    let chat = instruction_pairs(Focus::Chat, "Chat");

    assert_eq!(agents.len(), 4);
    assert_eq!(agents[2], ("Chat".to_string(), " <Enter>".to_string()));
    assert_eq!(chat[1], ("Leave Chat".to_string(), " <Esc>".to_string()));
}

fn loaded_agent(directive_present: bool) -> Agent {
    let config = AgentConfig::empty()
        .set_name("builder".into())
        .set_dir("project/builder".into());
    let mut agent = Agent::new("builder".into(), config);
    let files = ConfigFiles::load(
        "project/builder",
        "project",
        DirScan {
            config_present: true,
            settings: SettingsRead::Parsed(AgentSettings {
                model: "openai/gpt-4o".into(),
                agent_max_iterations: 5,
                tools: ToolSettings::empty(),
            }),
            agents_present: true,
            local_system_present: true,
            project_system_present: false,
            directive_present,
        },
    )
    .expect("load config files");
    agent.definition_mut().set_config_files(files, vec!["end_turn".into()]);
    agent
}

#[test]
fn enter_runs_an_agent_with_a_directive_and_opens_the_chat_of_one_without() {
    assert_eq!(enter_label(None), "Run Agent");
    assert_eq!(enter_label(Some(&loaded_agent(true).agent_definition())), "Run Agent");
    assert_eq!(enter_label(Some(&loaded_agent(false).agent_definition())), "Open Chat");

    let mut started = loaded_agent(false);
    started.definition_mut().set_state(AgentState::Idle);
    assert_eq!(enter_label(Some(&started.agent_definition())), "Chat");
}

#[test]
fn the_checklist_marks_what_is_there_what_is_missing_and_what_is_optional() {
    assert_eq!(file_mark(true, true), "[✓]");
    assert_eq!(file_mark(false, true), "[ ]");
    assert_eq!(file_mark(false, false), "[-]");
    assert!(ready_tail(true).contains("directive"));
    assert!(ready_tail(false).contains("first message"));
}

#[test]
fn an_agent_without_tools_says_so() {
    assert_eq!(tools_line(&vec![]), "(none)");
    assert_eq!(
        tools_line(&vec!["end_turn".to_string(), "bash".to_string()]),
        "end_turn, bash"
    );
    assert_eq!(dir_line(""), "(not selected)");
    assert_eq!(dir_line("project/builder"), "project/builder");
}

#[test]
fn the_app_reports_what_stopped_it() {
    assert_eq!(Args::new("project".into()).project_dir, "project");
    assert_eq!(
        TUIAppError::InalidArgs("project_dir isn't a directory".into()).message(),
        "invalid arg(s): project_dir isn't a directory"
    );
}

#[test]
fn the_transcript_marks_the_directive_and_what_waits() {
    let config = AgentConfig::empty().set_name("builder".into());
    let mut agent = Agent::new("builder".into(), config);
    let definition = agent.definition_mut();
    definition.push_directive("Review the parser.");
    definition.push_message(Message::assistant("on it"));
    definition.queue_message(Message::user("and the lexer"));
    definition.set_state(AgentState::Working);

    let parts = transcript(&agent.agent_definition(), 40);
    assert_eq!(parts.len(), 4);
    match &parts[0] {
        TranscriptPart::Said(lines) => assert_eq!(lines.label, "directive"),
        _ => panic!("the directive comes first"),
    }
    match &parts[1] {
        TranscriptPart::Said(lines) => assert_eq!(lines.label, "agent"),
        _ => panic!("then the reply"),
    }
    match &parts[2] {
        TranscriptPart::Queued(lines) => assert_eq!(lines.body, vec!["and the lexer".to_string()]),
        _ => panic!("then what waits"),
    }
    assert!(matches!(parts[3], TranscriptPart::Thinking));
}

#[test]
fn a_failed_agent_ends_its_transcript_with_the_error() {
    let mut agent = Agent::new("builder".into(), AgentConfig::empty());
    agent.definition_mut().set_state(AgentState::Failed("no network".into()));
    let parts = transcript(&agent.agent_definition(), 40);
    assert_eq!(parts.len(), 1);
    match &parts[0] {
        TranscriptPart::Failed(error) => assert_eq!(error, "no network"),
        _ => panic!("the error is shown"),
    }
    assert_eq!(scroll_offset(10, 4), 6);
    assert_eq!(scroll_offset(3, 4), 0);
}

#[test]
fn the_detail_screen_shows_the_session_once_the_agent_has_started() {
    let mut agent = Agent::new("builder".into(), AgentConfig::empty());
    assert_eq!(detail_view(&agent.agent_definition()), DetailView::Configuring);
    agent.definition_mut().set_state(AgentState::Idle);
    assert_eq!(detail_view(&agent.agent_definition()), DetailView::Session);
}
