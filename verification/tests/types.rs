use apila::openrouter::types::{
    validate_function_name, ChatCompletionRequest, ChatCompletionResponse, Choice, FinishReason,
    FunctionCall, Message, Temperature, Tool, ToolChoice, MAX_FUNCTION_NAME_LEN,
};
use apila::json::JsonKind;

fn temperature(value: f32, text: &str) -> Temperature {
    Temperature {
        bits: value.to_bits(),
        text: text.to_string(),
    }
}

#[test]
fn validate_rejects_bad_requests() {
    let no_messages = ChatCompletionRequest::new("openai/gpt-4o", vec![]);
    assert!(no_messages.validate().is_err());

    let no_model = ChatCompletionRequest::new("", vec![Message::user("hi")]);
    assert!(no_model.validate().is_err());

    let too_many_stops = ChatCompletionRequest::new("openai/gpt-4o", vec![Message::user("hi")])
        .set_stop(vec![
            "a".into(),
            "b".into(),
            "c".into(),
            "d".into(),
            "e".into(),
        ]);
    assert!(too_many_stops.validate().is_err());

    let bad_temperature = ChatCompletionRequest::new("openai/gpt-4o", vec![Message::user("hi")])
        .set_temperature(temperature(3.0, "3"));
    assert!(bad_temperature.validate().is_err());

    let bad_tool_name = ChatCompletionRequest::new("openai/gpt-4o", vec![Message::user("hi")])
        .set_tools(vec![Tool::function("list files!", "nope", "{}".to_string())]);
    assert!(bad_tool_name.validate().is_err());

    let ok = ChatCompletionRequest::new("openai/gpt-4o", vec![Message::user("hi")])
        .set_temperature(temperature(0.7, "0.7"))
        .set_stop(vec!["\n\n".into()])
        .set_tools(vec![Tool::function("list_files", "ok", "{}".to_string())]);
    assert!(ok.validate().is_ok());
}

#[test]
fn validate_rejects_a_request_with_no_user_message() {
    let req = ChatCompletionRequest::new("openai/gpt-4o", vec![Message::system("guidelines")]);

    let err = req
        .validate()
        .expect_err("a system message is not a conversation");

    assert!(err.contains("user message"));
}

#[test]
fn a_function_name_is_held_to_the_characters_and_length_the_api_takes() {
    assert!(validate_function_name("list_files-2").is_ok());
    assert!(validate_function_name("").is_err());
    assert!(validate_function_name("list files").is_err());
    assert!(validate_function_name(&"a".repeat(MAX_FUNCTION_NAME_LEN)).is_ok());
    assert!(validate_function_name(&"a".repeat(MAX_FUNCTION_NAME_LEN + 1)).is_err());
}

#[test]
fn a_temperature_outside_zero_to_two_is_refused() {
    let with = |t: Temperature| {
        ChatCompletionRequest::new("openai/gpt-4o", vec![Message::user("hi")])
            .set_temperature(t)
            .validate()
    };

    assert!(with(temperature(0.0, "0")).is_ok());
    assert!(with(temperature(2.0, "2")).is_ok());
    assert!(with(temperature(-0.5, "-0.5")).is_err());
    assert!(with(temperature(f32::NAN, "NaN")).is_err());
}

#[test]
fn a_named_tool_choice_names_its_function() {
    match ToolChoice::function("list_files") {
        ToolChoice::Function { function, .. } => assert_eq!(function.name, "list_files"),
        other => panic!("expected a named choice, got {:?}", other),
    }
}

#[test]
fn the_content_of_a_message_is_what_it_says() {
    assert_eq!(Message::user("hi").content(), Some("hi"));
    assert_eq!(Message::tool("call_1", "ok").content(), Some("ok"));
    assert_eq!(Message::assistant_tool_calls(vec![]).content(), None);
    assert!(Message::system("rules").tool_calls().is_empty());
}

#[test]
fn the_first_choice_is_the_one_a_response_is_read_by() {
    let mut response = ChatCompletionResponse {
        id: "gen-1".into(),
        model: "openai/gpt-4o".into(),
        created: 0,
        object: "chat.completion".into(),
        choices: vec![],
        usage: None,
    };
    assert!(response.first_choice().is_none());

    response.choices.push(Choice {
        index: 0,
        message: Message::assistant("hello"),
        finish_reason: Some(FinishReason::Stop),
    });
    assert_eq!(
        response.first_choice().expect("a choice").message.content(),
        Some("hello")
    );
}

#[test]
fn call_arguments_are_parsed_as_json() {
    let call = FunctionCall { name: "bash".to_string(), arguments: r#"{"command": "ls"}"#.to_string() };
    assert_eq!(call.parsed_arguments().expect("json"), JsonKind::Object);
    let broken = FunctionCall { name: "bash".to_string(), arguments: "{ not json".to_string() };
    assert!(broken.parsed_arguments().is_err());
}
