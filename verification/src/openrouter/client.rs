//! How the library talks to the OpenRouter json api: the client's settings,
//! the call a chat completion request becomes, and what a reply comes to.
//! Sending the call is left to the caller.

use vstd::prelude::*;
use vstd::string::*;

use crate::config::Config;
use crate::openrouter::types::{
    request_problem, ApiErrorBody, ChatCompletionRequest, ChatCompletionResponse,
};
use crate::text::{chars_of, decimal, decimal_string, string_from_chars};

verus! {

pub const DEFAULT_BASE_URL: &'static str = "https://openrouter.ai/api/v1";

pub const DEFAULT_TIMEOUT_SECS: u64 = 60;

/// Why a chat completion did not come back as a usable response.
#[derive(Debug, Clone)]
pub enum OpenRouterError {
    /// The request never got an answer: the transport's reason.
    Http(String),
    /// The answer was not the response json: the parser's message.
    Decode(String),
    /// OpenRouter said why it refused.
    Api { status: u16, message: String },
    /// A refusal OpenRouter gave no readable reason for.
    UnexpectedResponse { status: u16, body: String },
    InvalidRequest(String),
    NoChoices,
}

/// What a failed chat completion says.
pub open spec fn open_router_error_text(e: OpenRouterError) -> Seq<char> {
    match e {
        OpenRouterError::Http(m) => "http request failed: "@ + m@,
        OpenRouterError::Decode(m) => "failed to decode the response: "@ + m@,
        OpenRouterError::Api { status, message } => "openrouter returned an error (status "@
            + decimal(status as nat) + "): "@ + message@,
        OpenRouterError::UnexpectedResponse { status, body } =>
            "unexpected response from openrouter (status "@ + decimal(status as nat) + "): "@
            + body@,
        OpenRouterError::InvalidRequest(m) => "invalid request: "@ + m@,
        OpenRouterError::NoChoices => "the response contained no choices"@,
    }
}

impl OpenRouterError {
    pub fn message(&self) -> (r: String)
        ensures
            r@ == open_router_error_text(*self),
    {
        match self {
            OpenRouterError::Http(m) => {
                let mut r = "http request failed: ".to_owned();
                r.append(m.as_str());
                r
            },
            OpenRouterError::Decode(m) => {
                let mut r = "failed to decode the response: ".to_owned();
                r.append(m.as_str());
                r
            },
            OpenRouterError::Api { status, message } => {
                let mut r = "openrouter returned an error (status ".to_owned();
                let code = decimal_string(*status as u64);
                r.append(code.as_str());
                r.append("): ");
                r.append(message.as_str());
                r
            },
            OpenRouterError::UnexpectedResponse { status, body } => {
                let mut r = "unexpected response from openrouter (status ".to_owned();
                let code = decimal_string(*status as u64);
                r.append(code.as_str());
                r.append("): ");
                r.append(body.as_str());
                r
            },
            OpenRouterError::InvalidRequest(m) => {
                let mut r = "invalid request: ".to_owned();
                r.append(m.as_str());
                r
            },
            OpenRouterError::NoChoices => "the response contained no choices".to_owned(),
        }
    }
}

/// The client's settings. Its `Debug` is left out, so the api key never
/// reaches a log through it.
#[derive(Clone)]
pub struct OpenRouterConfig {
    api_key: String,
    base_url: String,
    http_referer: Option<String>,
    x_title: Option<String>,
}

pub struct OpenRouterConfigView {
    pub api_key: Seq<char>,
    pub base_url: Seq<char>,
    pub http_referer: Option<Seq<char>>,
    pub x_title: Option<Seq<char>>,
}

pub open spec fn opt_view(s: Option<String>) -> Option<Seq<char>> {
    match s {
        Some(s) => Some(s@),
        None => None,
    }
}

impl View for OpenRouterConfig {
    type V = OpenRouterConfigView;

    closed spec fn view(&self) -> OpenRouterConfigView {
        OpenRouterConfigView {
            api_key: self.api_key@,
            base_url: self.base_url@,
            http_referer: opt_view(self.http_referer),
            x_title: opt_view(self.x_title),
        }
    }
}

fn clone_opt(s: &Option<String>) -> (r: Option<String>)
    ensures
        opt_view(r) == opt_view(*s),
{
    match s {
        Some(s) => Some(s.clone()),
        None => None,
    }
}

/// `s` without the '/' characters it ends in.
pub open spec fn trim_trailing_slashes(s: Seq<char>) -> Seq<char>
    decreases s.len(),
{
    if s.len() > 0 && s.last() == '/' {
        trim_trailing_slashes(s.drop_last())
    } else {
        s
    }
}

/// Where chat completions are posted for a client with `base_url`.
pub open spec fn completions_url(base_url: Seq<char>) -> Seq<char> {
    trim_trailing_slashes(base_url) + "/chat/completions"@
}

/// The headers every call carries: the bearer token and the content type,
/// then the attribution headers the config names.
pub open spec fn call_headers(c: OpenRouterConfigView) -> Seq<(Seq<char>, Seq<char>)> {
    let base = seq![
        ("Authorization"@, "Bearer "@ + c.api_key),
        ("Content-Type"@, "application/json"@),
    ];
    let with_referer = match c.http_referer {
        Some(r) => base.push(("HTTP-Referer"@, r)),
        None => base,
    };
    match c.x_title {
        Some(t) => with_referer.push(("X-Title"@, t)),
        None => with_referer,
    }
}

pub open spec fn headers_view(h: Seq<(String, String)>) -> Seq<(Seq<char>, Seq<char>)> {
    h.map_values(|p: (String, String)| (p.0@, p.1@))
}

/// A chat completion ready to go out: where it is posted and what headers it
/// carries. The body is the request, as json.
pub struct HttpCall {
    pub url: String,
    pub headers: Vec<(String, String)>,
}

impl OpenRouterConfig {
    pub fn new(api_key: String) -> (c: OpenRouterConfig)
        ensures
            c@.api_key == api_key@,
            c@.base_url == DEFAULT_BASE_URL@,
            c@.http_referer is None,
            c@.x_title is None,
    {
        OpenRouterConfig {
            api_key,
            base_url: DEFAULT_BASE_URL.to_owned(),
            http_referer: None,
            x_title: None,
        }
    }

    /// Builds the client config from the project's `config.json`.
    pub fn from_config(config: &Config) -> (c: OpenRouterConfig)
        ensures
            c@.api_key == config.openrouter_api_key@,
            c@.base_url == match config.openrouter_base_url {
                Some(u) => u@,
                None => DEFAULT_BASE_URL@,
            },
            c@.http_referer == opt_view(config.http_referer),
            c@.x_title == opt_view(config.x_openrouter_title),
    {
        OpenRouterConfig {
            api_key: config.openrouter_api_key.clone(),
            base_url: match &config.openrouter_base_url {
                Some(u) => u.clone(),
                None => DEFAULT_BASE_URL.to_owned(),
            },
            http_referer: clone_opt(&config.http_referer),
            x_title: clone_opt(&config.x_openrouter_title),
        }
    }

    pub fn base_url(&self) -> (r: String)
        ensures
            r@ == self@.base_url,
    {
        self.base_url.clone()
    }

    pub fn http_referer(&self) -> (r: Option<String>)
        ensures
            opt_view(r) == self@.http_referer,
    {
        clone_opt(&self.http_referer)
    }

    pub fn x_title(&self) -> (r: Option<String>)
        ensures
            opt_view(r) == self@.x_title,
    {
        clone_opt(&self.x_title)
    }

    pub fn set_base_url(self, base_url: String) -> (c: OpenRouterConfig)
        ensures
            c@ == (OpenRouterConfigView { base_url: base_url@, ..self@ }),
    {
        let mut c = self;
        c.base_url = base_url;
        c
    }

    pub fn set_http_referer(self, http_referer: String) -> (c: OpenRouterConfig)
        ensures
            c@ == (OpenRouterConfigView { http_referer: Some(http_referer@), ..self@ }),
    {
        let mut c = self;
        c.http_referer = Some(http_referer);
        c
    }

    pub fn set_x_title(self, x_title: String) -> (c: OpenRouterConfig)
        ensures
            c@ == (OpenRouterConfigView { x_title: Some(x_title@), ..self@ }),
    {
        let mut c = self;
        c.x_title = Some(x_title);
        c
    }

    /// Where chat completions are posted.
    pub fn chat_completions_url(&self) -> (r: String)
        ensures
            r@ == completions_url(self@.base_url),
    {
        let v = chars_of(self.base_url.as_str());
        let mut end = v.len();
        assert(v@.take(end as int) =~= v@);
        while end > 0 && v[end - 1] == '/'
            invariant
                0 <= end <= v@.len(),
                trim_trailing_slashes(v@) == trim_trailing_slashes(v@.take(end as int)),
            decreases end,
        {
            assert(v@.take(end as int).drop_last() =~= v@.take(end - 1));
            end -= 1;
        }
        assert(end > 0 ==> v@.take(end as int).last() == v@[end - 1]);
        let mut url = string_from_chars(v.as_slice(), 0, end);
        assert(v@.subrange(0, end as int) =~= v@.take(end as int));
        url.append("/chat/completions");
        url
    }

    /// The headers every call carries.
    pub fn headers(&self) -> (r: Vec<(String, String)>)
        ensures
            headers_view(r@) == call_headers(self@),
    {
        let mut r: Vec<(String, String)> = Vec::new();
        let mut bearer = "Bearer ".to_owned();
        bearer.append(self.api_key.as_str());
        r.push(("Authorization".to_owned(), bearer));
        r.push(("Content-Type".to_owned(), "application/json".to_owned()));
        let ghost base = headers_view(r@);
        assert(base =~= seq![
            ("Authorization"@, "Bearer "@ + self@.api_key),
            ("Content-Type"@, "application/json"@),
        ]);
        match &self.http_referer {
            Some(referer) => {
                r.push(("HTTP-Referer".to_owned(), referer.clone()));
            },
            None => {},
        }
        let ghost mid = headers_view(r@);
        assert(mid =~= match self@.http_referer {
            Some(x) => base.push(("HTTP-Referer"@, x)),
            None => base,
        });
        match &self.x_title {
            Some(title) => {
                r.push(("X-Title".to_owned(), title.clone()));
            },
            None => {},
        }
        assert(headers_view(r@) =~= match self@.x_title {
            Some(x) => mid.push(("X-Title"@, x)),
            None => mid,
        });
        r
    }
}

/// The call a chat completion request becomes, once it passes the checks the
/// api documents: an obviously bad request never costs a round trip.
pub fn prepare(config: &OpenRouterConfig, req: &ChatCompletionRequest) -> (r: Result<
    HttpCall,
    OpenRouterError,
>)
    ensures
        match request_problem(*req) {
            Some(p) => r matches Err(OpenRouterError::InvalidRequest(m)) && m@ == p,
            None => r matches Ok(call) && call.url@ == completions_url(config@.base_url)
                && headers_view(call.headers@) == call_headers(config@),
        },
{
    match req.validate() {
        Err(problem) => Err(OpenRouterError::InvalidRequest(problem)),
        Ok(()) => Ok(HttpCall { url: config.chat_completions_url(), headers: config.headers() }),
    }
}

/// Whether `status` is a success (2xx).
pub open spec fn success_status(status: u16) -> bool {
    200 <= status < 300
}

pub fn is_success(status: u16) -> (r: bool)
    ensures
        r == success_status(status),
{
    200 <= status && status < 300
}

/// What a reply comes to. A refusal carries its useful message in the body,
/// so `error_body` is that body read as an api error, when it reads as one;
/// `decoded` is the body read as a chat completion. A success with no choices
/// is no answer at all.
pub fn interpret_reply(
    status: u16,
    body: String,
    error_body: Option<ApiErrorBody>,
    decoded: Result<ChatCompletionResponse, String>,
) -> (r: Result<ChatCompletionResponse, OpenRouterError>)
    ensures
        !success_status(status) ==> match error_body {
            Some(e) => r matches Err(OpenRouterError::Api { status: s, message }) && s == status
                && message@ == e.error.message@,
            None => r matches Err(OpenRouterError::UnexpectedResponse { status: s, body: b })
                && s == status && b@ == body@,
        },
        success_status(status) ==> match decoded {
            Err(e) => r matches Err(OpenRouterError::Decode(m)) && m@ == e@,
            Ok(resp) => if resp.choices@.len() == 0 {
                r matches Err(OpenRouterError::NoChoices)
            } else {
                r == Ok::<ChatCompletionResponse, OpenRouterError>(resp)
            },
        },
{
    if !is_success(status) {
        return Err(
            match error_body {
                Some(e) => OpenRouterError::Api { status, message: e.error.message },
                None => OpenRouterError::UnexpectedResponse { status, body },
            },
        );
    }
    match decoded {
        Err(e) => Err(OpenRouterError::Decode(e)),
        Ok(resp) => {
            if resp.choices.len() == 0 {
                Err(OpenRouterError::NoChoices)
            } else {
                Ok(resp)
            }
        },
    }
}


/// Every call authenticates with the api key as a bearer token and says its
/// body is json, before any attribution header; each attribution header the
/// config names follows, and no other.
pub proof fn lemma_every_call_carries_the_bearer_token(c: OpenRouterConfigView)
    ensures
        call_headers(c).len() >= 2,
        call_headers(c)[0] == ("Authorization"@, "Bearer "@ + c.api_key),
        call_headers(c)[1] == ("Content-Type"@, "application/json"@),
        call_headers(c).len() == 2 + (if c.http_referer is Some { 1int } else { 0int }) + (
        if c.x_title is Some {
            1int
        } else {
            0int
        }),
        c.http_referer matches Some(r) ==> call_headers(c)[2] == ("HTTP-Referer"@, r),
        c.x_title matches Some(t) ==> call_headers(c).last() == ("X-Title"@, t),
{
}

} // verus!
