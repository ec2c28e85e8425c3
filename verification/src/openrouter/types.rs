//! The OpenAI compatible chat completion shapes OpenRouter exposes, and the
//! checks a request has to pass before it is worth sending.

use vstd::prelude::*;
use vstd::string::*;

use crate::json::{check_json, json_kind_of, json_parse_error, JsonKind};
use crate::text::{all_space, decimal, decimal_string, is_blank, push_char};

verus! {

/// The maximum number of stop sequences the api accepts.
pub const MAX_STOP_SEQUENCES: usize = 4;

/// The maximum length of a tool function name, in bytes.
pub const MAX_FUNCTION_NAME_LEN: usize = 64;

// Messages //////////////////////////
//////////////////////////////////////

/// A function call the model asked for.
#[derive(Debug, Clone)]
pub struct FunctionCall {
    pub name: String,
    /// A json document encoded as a string, not a json object.
    pub arguments: String,
}

pub struct FunctionCallView {
    pub name: Seq<char>,
    pub arguments: Seq<char>,
}

impl View for FunctionCall {
    type V = FunctionCallView;

    open spec fn view(&self) -> FunctionCallView {
        FunctionCallView { name: self.name@, arguments: self.arguments@ }
    }
}

impl FunctionCall {
    pub fn duplicate(&self) -> (r: FunctionCall)
        ensures
            r@ == self@,
    {
        FunctionCall { name: self.name.clone(), arguments: self.arguments.clone() }
    }

    /// Parses `arguments` as json: the kind of value they hold, or the
    /// parser's message when they are not json.
    pub fn parsed_arguments(&self) -> (r: Result<JsonKind, String>)
        ensures
            match json_parse_error(self.arguments@) {
                None => r is Ok && json_kind_of(self.arguments@) == Some(r->Ok_0),
                Some(e) => r matches Err(m) && m@ == e,
            },
    {
        check_json(self.arguments.as_str())
    }
}

/// A tool call requested by the model.
#[derive(Debug, Clone)]
pub struct ToolCall {
    pub id: String,
    pub call_type: String,
    pub function: FunctionCall,
}

pub struct ToolCallView {
    pub id: Seq<char>,
    pub call_type: Seq<char>,
    pub function: FunctionCallView,
}

impl View for ToolCall {
    type V = ToolCallView;

    open spec fn view(&self) -> ToolCallView {
        ToolCallView { id: self.id@, call_type: self.call_type@, function: self.function@ }
    }
}

impl ToolCall {
    pub fn duplicate(&self) -> (r: ToolCall)
        ensures
            r@ == self@,
    {
        ToolCall {
            id: self.id.clone(),
            call_type: self.call_type.clone(),
            function: self.function.duplicate(),
        }
    }
}

pub open spec fn tool_calls_view(calls: Seq<ToolCall>) -> Seq<ToolCallView> {
    calls.map_values(|c: ToolCall| c@)
}

/// A copy of `calls`, call for call.
pub fn duplicate_tool_calls(calls: &[ToolCall]) -> (r: Vec<ToolCall>)
    ensures
        tool_calls_view(r@) == tool_calls_view(calls@),
{
    let mut r: Vec<ToolCall> = Vec::new();
    for i in 0..calls.len()
        invariant
            tool_calls_view(r@) == tool_calls_view(calls@).take(i as int),
    {
        r.push(calls[i].duplicate());
        assert(tool_calls_view(calls@).take(i + 1) =~= tool_calls_view(calls@).take(i as int).push(
            calls@[i as int]@,
        ));
        assert(tool_calls_view(r@) =~= tool_calls_view(calls@).take(i + 1));
    }
    assert(tool_calls_view(calls@).take(calls.len() as int) =~= tool_calls_view(calls@));
    r
}

/// A single message in a conversation, told apart by its role.
#[allow(inconsistent_fields)]
#[derive(Debug, Clone)]
pub enum Message {
    System { content: String },
    User { content: String },
    Assistant {
        /// Absent when the model only returned tool calls.
        content: Option<String>,
        tool_calls: Vec<ToolCall>,
    },
    Tool { tool_call_id: String, content: String },
}

#[allow(inconsistent_fields)]
pub enum MessageView {
    System { content: Seq<char> },
    User { content: Seq<char> },
    Assistant { content: Option<Seq<char>>, tool_calls: Seq<ToolCallView> },
    Tool { tool_call_id: Seq<char>, content: Seq<char> },
}

impl View for Message {
    type V = MessageView;

    open spec fn view(&self) -> MessageView {
        match self {
            Message::System { content } => MessageView::System { content: content@ },
            Message::User { content } => MessageView::User { content: content@ },
            Message::Assistant { content, tool_calls } => MessageView::Assistant {
                content: match content {
                    Some(c) => Some(c@),
                    None => None,
                },
                tool_calls: tool_calls_view(tool_calls@),
            },
            Message::Tool { tool_call_id, content } => MessageView::Tool {
                tool_call_id: tool_call_id@,
                content: content@,
            },
        }
    }
}

pub open spec fn messages_view(messages: Seq<Message>) -> Seq<MessageView> {
    messages.map_values(|m: Message| m@)
}

pub proof fn lemma_messages_view_push(s: Seq<Message>, x: Message)
    ensures
        messages_view(s.push(x)) == messages_view(s).push(x@),
{
    assert(messages_view(s.push(x)) =~= messages_view(s).push(x@));
}

/// The text a message carries, if it carries any.
pub open spec fn message_content(m: MessageView) -> Option<Seq<char>> {
    match m {
        MessageView::System { content } => Some(content),
        MessageView::User { content } => Some(content),
        MessageView::Tool { content, .. } => Some(content),
        MessageView::Assistant { content, .. } => content,
    }
}

impl Message {
    pub fn system(content: &str) -> (m: Message)
        ensures
            m@ == (MessageView::System { content: content@ }),
    {
        Message::System { content: content.to_owned() }
    }

    pub fn user(content: &str) -> (m: Message)
        ensures
            m@ == (MessageView::User { content: content@ }),
    {
        Message::User { content: content.to_owned() }
    }

    pub fn assistant(content: &str) -> (m: Message)
        ensures
            m@ == (MessageView::Assistant { content: Some(content@), tool_calls: Seq::empty() }),
    {
        let m = Message::Assistant { content: Some(content.to_owned()), tool_calls: Vec::new() };
        assert(tool_calls_view(Seq::<ToolCall>::empty()) =~= Seq::empty());
        m
    }

    pub fn assistant_tool_calls(tool_calls: Vec<ToolCall>) -> (m: Message)
        ensures
            m@ == (MessageView::Assistant { content: None, tool_calls: tool_calls_view(tool_calls@) }),
    {
        Message::Assistant { content: None, tool_calls }
    }

    /// The result of running a tool, replying to the call with `tool_call_id`.
    pub fn tool(tool_call_id: &str, content: &str) -> (m: Message)
        ensures
            m@ == (MessageView::Tool { tool_call_id: tool_call_id@, content: content@ }),
    {
        Message::Tool { tool_call_id: tool_call_id.to_owned(), content: content.to_owned() }
    }

    /// The text content of the message, if it has any.
    pub fn content(&self) -> (r: Option<&str>)
        ensures
            match r {
                Some(s) => message_content(self@) == Some(s@),
                None => message_content(self@) is None,
            },
    {
        match self {
            Message::System { content } => Some(content.as_str()),
            Message::User { content } => Some(content.as_str()),
            Message::Tool { content, .. } => Some(content.as_str()),
            Message::Assistant { content, .. } => match content {
                Some(c) => Some(c.as_str()),
                None => None,
            },
        }
    }

    /// The tool calls the model requested. Empty for every other role.
    pub fn tool_calls(&self) -> (r: &[ToolCall])
        ensures
            match self@ {
                MessageView::Assistant { tool_calls, .. } => tool_calls_view(r@) == tool_calls,
                _ => r@.len() == 0,
            },
    {
        match self {
            Message::Assistant { tool_calls, .. } => tool_calls.as_slice(),
            _ => &[],
        }
    }

    /// Whether this is a message from the user.
    pub fn is_user(&self) -> (r: bool)
        ensures
            r == (self@ is User),
    {
        match self {
            Message::User { .. } => true,
            _ => false,
        }
    }

    pub fn duplicate(&self) -> (r: Message)
        ensures
            r@ == self@,
    {
        match self {
            Message::System { content } => Message::System { content: content.clone() },
            Message::User { content } => Message::User { content: content.clone() },
            Message::Assistant { content, tool_calls } => {
                let content = match content {
                    Some(c) => Some(c.clone()),
                    None => None,
                };
                Message::Assistant { content, tool_calls: duplicate_tool_calls(tool_calls.as_slice()) }
            },
            Message::Tool { tool_call_id, content } => Message::Tool {
                tool_call_id: tool_call_id.clone(),
                content: content.clone(),
            },
        }
    }
}


// Tools /////////////////////////////
//////////////////////////////////////

/// A function the model may call. `parameters` is a json schema object, as
/// json, that is carried to the api as it was given.
#[derive(Debug, Clone)]
pub struct FunctionDef {
    pub name: String,
    pub description: Option<String>,
    pub parameters: String,
}

/// A tool the model may call. Only function tools are supported.
#[derive(Debug, Clone)]
pub struct Tool {
    pub tool_type: String,
    pub function: FunctionDef,
}

impl Tool {
    /// `parameters` is a json schema object describing the function's
    /// arguments, as json.
    pub fn function(name: &str, description: &str, parameters: String) -> (t: Tool)
        ensures
            t.tool_type@ == "function"@,
            t.function.name@ == name@,
            t.function.description matches Some(d) && d@ == description@,
            t.function.parameters@ == parameters@,
    {
        Tool {
            tool_type: "function".to_owned(),
            function: FunctionDef {
                name: name.to_owned(),
                description: Some(description.to_owned()),
                parameters,
            },
        }
    }
}

#[derive(Debug, Clone)]
pub struct FunctionChoice {
    pub name: String,
}

/// How the model should pick between the provided tools.
#[derive(Debug, Clone)]
pub enum ToolChoice {
    /// "auto" | "none" | "required"
    Mode(String),
    Function { choice_type: String, function: FunctionChoice },
}

impl ToolChoice {
    pub fn auto() -> (c: ToolChoice)
        ensures
            c matches ToolChoice::Mode(m) && m@ == "auto"@,
    {
        ToolChoice::Mode("auto".to_owned())
    }

    pub fn none() -> (c: ToolChoice)
        ensures
            c matches ToolChoice::Mode(m) && m@ == "none"@,
    {
        ToolChoice::Mode("none".to_owned())
    }

    pub fn required() -> (c: ToolChoice)
        ensures
            c matches ToolChoice::Mode(m) && m@ == "required"@,
    {
        ToolChoice::Mode("required".to_owned())
    }

    /// Forces a call to a single named function.
    pub fn function(name: &str) -> (c: ToolChoice)
        ensures
            c matches ToolChoice::Function { choice_type, function } && choice_type@ == "function"@
                && function.name@ == name@,
    {
        ToolChoice::Function {
            choice_type: "function".to_owned(),
            function: FunctionChoice { name: name.to_owned() },
        }
    }
}

// Request ///////////////////////////
//////////////////////////////////////

/// A sampling temperature. The library reads it only through its IEEE-754
/// bit pattern, which decides whether it lies in `[0, 2]`, and through the
/// text it reads as, which an error message quotes.
#[derive(Debug, Clone)]
pub struct Temperature {
    pub bits: u32,
    pub text: String,
}

/// Whether the single precision float with bit pattern `bits` lies in
/// `[0, 2]`. Non-negative floats order as their bit patterns do and `2.0` is
/// `0x4000_0000`; `-0.0` (`0x8000_0000`) compares equal to `0.0`; NaN and
/// every other negative lie outside.
pub open spec fn temperature_in_range(bits: u32) -> bool {
    bits <= 0x4000_0000 || bits == 0x8000_0000
}

#[derive(Debug, Clone)]
pub struct ChatCompletionRequest {
    pub model: String,
    pub messages: Vec<Message>,
    pub tools: Option<Vec<Tool>>,
    pub tool_choice: Option<ToolChoice>,
    pub temperature: Option<Temperature>,
    pub max_tokens: Option<u32>,
    pub stop: Option<Vec<String>>,
}

/// Whether `c` may appear in a tool function name: `[a-zA-Z0-9_-]`.
pub open spec fn name_char_ok(c: char) -> bool {
    let n = c as u32;
    ||| 0x30 <= n <= 0x39
    ||| 0x41 <= n <= 0x5A
    ||| 0x61 <= n <= 0x7A
    ||| c == '_'
    ||| c == '-'
}

/// The index of the first character of `s` at or after `i` that may not appear
/// in a tool function name, if there is one.
pub open spec fn first_bad_char(s: Seq<char>, i: int) -> Option<int>
    decreases s.len() - i,
{
    if i < 0 || i >= s.len() {
        None
    } else if !name_char_ok(s[i]) {
        Some(i)
    } else {
        first_bad_char(s, i + 1)
    }
}

/// What is wrong with a tool function name, if anything: it is empty, longer
/// than 64 bytes of utf-8, or holds a character outside `[a-zA-Z0-9_-]`.
pub open spec fn function_name_problem(name: Seq<char>) -> Option<Seq<char>> {
    if name.len() == 0 {
        Some("tool function name must not be empty"@)
    } else if vstd::utf8::encode_utf8(name).len() > 64 {
        Some("tool function name `"@ + name + "` exceeds 64 characters"@)
    } else {
        match first_bad_char(name, 0) {
            Some(i) => Some(
                "tool function name `"@ + name + "` contains an invalid character `"@ + seq![name[i]]
                    + "`"@,
            ),
            None => None,
        }
    }
}

/// The first problem among `names`, in order.
pub open spec fn first_name_problem(names: Seq<Seq<char>>) -> Option<Seq<char>>
    decreases names.len(),
{
    if names.len() == 0 {
        None
    } else {
        match function_name_problem(names[0]) {
            Some(p) => Some(p),
            None => first_name_problem(names.drop_first()),
        }
    }
}

pub open spec fn has_user_message(messages: Seq<MessageView>) -> bool {
    exists|i: int| 0 <= i < messages.len() && (#[trigger] messages[i]) is User
}

pub open spec fn tool_names(tools: Seq<Tool>) -> Seq<Seq<char>> {
    tools.map_values(|t: Tool| t.function.name@)
}

/// The first documented constraint a request breaks, described, if it breaks
/// any. The checks run in this order: the model, the messages, a user turn,
/// the stop sequences, the temperature, each tool's name, the forced tool's
/// name.
pub open spec fn request_problem(r: ChatCompletionRequest) -> Option<Seq<char>> {
    if all_space(r.model@) {
        Some("model must not be empty"@)
    } else if r.messages@.len() == 0 {
        Some("messages must contain at least one message"@)
    } else if !has_user_message(messages_view(r.messages@)) {
        Some("messages must contain at least one user message"@)
    } else if r.stop matches Some(stop) && stop@.len() > MAX_STOP_SEQUENCES {
        Some(
            "stop accepts at most 4 sequences, got "@ + decimal(r.stop->0@.len() as nat),
        )
    } else if r.temperature matches Some(t) && !temperature_in_range(t.bits) {
        Some("temperature must be between 0 and 2, got "@ + r.temperature->0.text@)
    } else if r.tools matches Some(tools) && first_name_problem(tool_names(tools@)) is Some {
        first_name_problem(tool_names(r.tools->0@))
    } else {
        match r.tool_choice {
            Some(ToolChoice::Function { function, .. }) => function_name_problem(function.name@),
            _ => None,
        }
    }
}

proof fn lemma_first_name_problem_step(names: Seq<Seq<char>>, i: int)
    requires
        0 <= i < names.len(),
        function_name_problem(names[i]) is None,
    ensures
        first_name_problem(names.skip(i)) == first_name_problem(names.skip(i + 1)),
{
    assert(names.skip(i).drop_first() =~= names.skip(i + 1));
    assert(names.skip(i)[0] == names[i]);
}

proof fn lemma_first_name_problem_hit(names: Seq<Seq<char>>, i: int)
    requires
        0 <= i < names.len(),
        function_name_problem(names[i]) is Some,
    ensures
        first_name_problem(names.skip(i)) == function_name_problem(names[i]),
{
    assert(names.skip(i)[0] == names[i]);
}

impl ChatCompletionRequest {
    pub fn new(model: &str, messages: Vec<Message>) -> (r: ChatCompletionRequest)
        ensures
            r.model@ == model@,
            r.messages@ == messages@,
            r.tools is None,
            r.tool_choice is None,
            r.temperature is None,
            r.max_tokens is None,
            r.stop is None,
    {
        ChatCompletionRequest {
            model: model.to_owned(),
            messages,
            tools: None,
            tool_choice: None,
            temperature: None,
            max_tokens: None,
            stop: None,
        }
    }

    pub fn set_tools(self, tools: Vec<Tool>) -> (r: ChatCompletionRequest)
        ensures
            r == (ChatCompletionRequest { tools: Some(tools), ..self }),
    {
        let mut r = self;
        r.tools = Some(tools);
        r
    }

    pub fn set_tool_choice(self, tool_choice: ToolChoice) -> (r: ChatCompletionRequest)
        ensures
            r == (ChatCompletionRequest { tool_choice: Some(tool_choice), ..self }),
    {
        let mut r = self;
        r.tool_choice = Some(tool_choice);
        r
    }

    pub fn set_temperature(self, temperature: Temperature) -> (r: ChatCompletionRequest)
        ensures
            r == (ChatCompletionRequest { temperature: Some(temperature), ..self }),
    {
        let mut r = self;
        r.temperature = Some(temperature);
        r
    }

    pub fn set_max_tokens(self, max_tokens: u32) -> (r: ChatCompletionRequest)
        ensures
            r == (ChatCompletionRequest { max_tokens: Some(max_tokens), ..self }),
    {
        let mut r = self;
        r.max_tokens = Some(max_tokens);
        r
    }

    pub fn set_stop(self, stop: Vec<String>) -> (r: ChatCompletionRequest)
        ensures
            r == (ChatCompletionRequest { stop: Some(stop), ..self }),
    {
        let mut r = self;
        r.stop = Some(stop);
        r
    }

    /// Checks the constraints the api documents so an obviously bad request
    /// never costs a round trip. Returns a description of the first problem.
    #[verifier::loop_isolation(false)]
    pub fn validate(&self) -> (r: Result<(), String>)
        ensures
            match r {
                Ok(()) => request_problem(*self) is None,
                Err(e) => request_problem(*self) == Some(e@),
            },
    {
        if is_blank(self.model.as_str()) {
            return Err("model must not be empty".to_owned());
        }
        if self.messages.len() == 0 {
            return Err("messages must contain at least one message".to_owned());
        }
        let mut found = false;
        let mut i: usize = 0;
        while i < self.messages.len()
            invariant
                0 <= i <= self.messages@.len(),
                found ==> has_user_message(messages_view(self.messages@)),
                !found ==> forall|j: int| 0 <= j < i ==> !(self.messages@[j]@ is User),
            decreases self.messages.len() - i,
        {
            if self.messages[i].is_user() {
                assert(messages_view(self.messages@)[i as int] is User);
                found = true;
            }
            i += 1;
        }
        if !found {
            assert(!has_user_message(messages_view(self.messages@))) by {
                assert forall|j: int| 0 <= j < messages_view(self.messages@).len() implies !(
                #[trigger] messages_view(self.messages@)[j] is User) by {
                    assert(messages_view(self.messages@)[j] == self.messages@[j]@);
                }
            }
            return Err("messages must contain at least one user message".to_owned());
        }
        match &self.stop {
            Some(stop) => {
                if stop.len() > MAX_STOP_SEQUENCES {
                    let mut e = "stop accepts at most 4 sequences, got ".to_owned();
                    let n = decimal_string(stop.len() as u64);
                    e.append(n.as_str());
                    return Err(e);
                }
            },
            None => {},
        }
        match &self.temperature {
            Some(t) => {
                if !(t.bits <= 0x4000_0000 || t.bits == 0x8000_0000) {
                    let mut e = "temperature must be between 0 and 2, got ".to_owned();
                    e.append(t.text.as_str());
                    return Err(e);
                }
            },
            None => {},
        }
        match &self.tools {
            Some(tools) => {
                let ghost names = tool_names(tools@);
                let mut k: usize = 0;
                assert(names.skip(0) =~= names);
                while k < tools.len()
                    invariant
                        0 <= k <= tools@.len(),
                        names == tool_names(tools@),
                        first_name_problem(names) == first_name_problem(names.skip(k as int)),
                    decreases tools.len() - k,
                {
                    let checked = validate_function_name(tools[k].function.name.as_str());
                    assert(names[k as int] == tools@[k as int].function.name@);
                    match checked {
                        Ok(()) => {
                            proof {
                                lemma_first_name_problem_step(names, k as int);
                            }
                        },
                        Err(e) => {
                            proof {
                                lemma_first_name_problem_hit(names, k as int);
                            }
                            return Err(e);
                        },
                    }
                    k += 1;
                }
                assert(names.skip(tools.len() as int) =~= Seq::<Seq<char>>::empty());
            },
            None => {},
        }
        match &self.tool_choice {
            Some(ToolChoice::Function { function, .. }) => validate_function_name(
                function.name.as_str(),
            ),
            _ => Ok(()),
        }
    }
}

/// Checks that a tool function name is limited to 64 bytes of `[a-zA-Z0-9_-]`.
pub fn validate_function_name(name: &str) -> (r: Result<(), String>)
    ensures
        match r {
            Ok(()) => function_name_problem(name@) is None,
            Err(e) => function_name_problem(name@) == Some(e@),
        },
{
    if name.is_empty() {
        return Err("tool function name must not be empty".to_owned());
    }
    if name.as_bytes().len() > MAX_FUNCTION_NAME_LEN {
        let mut e = "tool function name `".to_owned();
        e.append(name);
        e.append("` exceeds 64 characters");
        return Err(e);
    }
    let v = crate::text::chars_of(name);
    let mut i: usize = 0;
    let mut bad: Option<char> = None;
    while i < v.len()
        invariant
            0 <= i <= v@.len(),
            v@ == name@,
            bad is None ==> first_bad_char(name@, 0) == first_bad_char(name@, i as int),
            bad matches Some(b) ==> first_bad_char(name@, 0) matches Some(k) && name@[k] == b,
        decreases v.len() - i,
    {
        let c = v[i];
        if bad.is_none() {
            let n = c as u32;
            let ok = (0x30 <= n && n <= 0x39) || (0x41 <= n && n <= 0x5A) || (0x61 <= n && n
                <= 0x7A) || c == '_' || c == '-';
            assert(ok == name_char_ok(c));
            if !ok {
                bad = Some(c);
            }
        }
        i += 1;
    }
    match bad {
        Some(b) => {
            let mut e = "tool function name `".to_owned();
            e.append(name);
            e.append("` contains an invalid character `");
            push_char(&mut e, b);
            e.append("`");
            Err(e)
        },
        None => Ok(()),
    }
}

// Response //////////////////////////
//////////////////////////////////////

/// Why the model stopped generating.
#[derive(Debug, Clone, Copy, PartialEq, Eq, Structural)]
pub enum FinishReason {
    Stop,
    ToolCalls,
    Length,
    ContentFilter,
    /// Any value the api adds that isn't modeled above.
    Other,
}

#[derive(Debug, Clone, Copy)]
pub struct Usage {
    pub prompt_tokens: u32,
    pub completion_tokens: u32,
    pub total_tokens: u32,
}

#[derive(Debug, Clone)]
pub struct Choice {
    pub index: u32,
    pub message: Message,
    pub finish_reason: Option<FinishReason>,
}

/// A decoded chat completion. No response type refuses fields it does not
/// model: OpenRouter and the providers behind it regularly send more.
#[derive(Debug, Clone)]
pub struct ChatCompletionResponse {
    pub id: String,
    pub model: String,
    pub created: i64,
    pub object: String,
    pub choices: Vec<Choice>,
    pub usage: Option<Usage>,
}

impl ChatCompletionResponse {
    pub fn first_choice(&self) -> (r: Option<&Choice>)
        ensures
            r == (if self.choices@.len() > 0 {
                Some(&self.choices@[0])
            } else {
                None
            }),
    {
        if self.choices.len() > 0 {
            Some(&self.choices[0])
        } else {
            None
        }
    }
}

/// The error the api reports alongside a status outside 2xx.
#[derive(Debug, Clone)]
pub struct ApiError {
    pub code: Option<i64>,
    pub message: String,
    /// Whatever else the api said about the error, as json.
    pub metadata: Option<String>,
}

/// The body returned alongside a status outside 2xx.
#[derive(Debug, Clone)]
pub struct ApiErrorBody {
    pub error: ApiError,
}


/// A conversation holds a user message exactly when one of its messages,
/// wherever it stands, is the user's.
pub proof fn lemma_a_user_message_anywhere_counts(s: Seq<MessageView>)
    ensures
        has_user_message(s) <==> exists|i: int| 0 <= i < s.len() && #[trigger] s[i] is User,
        has_user_message(s) ==> forall|m: MessageView| has_user_message(#[trigger] seq![m] + s),
{
    if has_user_message(s) {
        let i = choose|i: int| 0 <= i < s.len() && #[trigger] s[i] is User;
        assert forall|m: MessageView| has_user_message(#[trigger] seq![m] + s) by {
            assert((seq![m] + s)[i + 1] == s[i]);
        }
    }
}

/// Opening a request's messages with a system prompt never changes whether
/// it is accepted, nor what is wrong with it: the request is checked on what
/// it holds, not on which message comes first.
pub proof fn lemma_a_system_prompt_in_front_changes_nothing(
    r: ChatCompletionRequest,
    with_prompt: ChatCompletionRequest,
    prompt: Seq<char>,
)
    requires
        r.messages@.len() > 0,
        with_prompt.model@ == r.model@,
        messages_view(with_prompt.messages@) == seq![MessageView::System { content: prompt }]
            + messages_view(r.messages@),
        with_prompt.stop == r.stop,
        with_prompt.temperature == r.temperature,
        with_prompt.tools == r.tools,
        with_prompt.tool_choice == r.tool_choice,
    ensures
        request_problem(with_prompt) == request_problem(r),
{
    let s = messages_view(r.messages@);
    let t = messages_view(with_prompt.messages@);
    assert(t.len() == with_prompt.messages@.len());
    lemma_a_user_message_anywhere_counts(s);
    if has_user_message(t) {
        let i = choose|i: int| 0 <= i < t.len() && #[trigger] t[i] is User;
        assert(i > 0);
        assert(s[i - 1] == t[i]);
    }
}

} // verus!
