//! The `bash` tool: its settings, the checks a call has to pass, and how what
//! a command did is reported back to the model. Running the command itself is
//! left to the caller.

use vstd::prelude::*;
use vstd::string::*;

use crate::json::{json_field, json_field_of, json_keys, json_keys_of, json_str, json_str_of, json_u64, json_u64_of};
use crate::text::{
    all_space, decimal, decimal_string, is_blank, signed_decimal, signed_decimal_string,
    str_eq, strings_view,
};
use crate::tools::tool::{ToolContext, ToolError, ToolOutput};

verus! {

/// How long a command may run before it is killed, in seconds, when the
/// agent's config does not say.
pub const DEFAULT_BASH_TIMEOUT: u64 = 120;

/// The most either stream may contribute before it is cut short. Tool results
/// are paid for by the token, so a command that prints a megabyte is worth
/// less to the model than a note saying it did.
pub const MAX_STREAM_BYTES: usize = 8_192;

pub const BASH_DESCRIPTION: &'static str = "Run a shell command with `bash -c` in your own working directory and read back its exit code, stdout and stderr. The command is killed if it runs longer than the configured timeout, and long output is cut short, so prefer commands that finish quickly and print only what you need.";

pub const BASH_PARAMETERS: &'static str = "{\"type\": \"object\", \"properties\": {\"command\": {\"type\": \"string\", \"description\": \"The command to run. It is passed to `bash -c`, so pipes, redirection and `&&` all work.\"}}, \"required\": [\"command\"]}";

/// Runs a shell command in the agent's own directory. Nothing confines it:
/// an agent may do whatever the user running apila may do, so it is off unless
/// a `config.json` enables it.
#[derive(Debug, Clone, Copy)]
pub struct BashTool;

/// The tool's own settings, out of the agent's `tools.configs` entry for
/// `bash`. Unknown keys are refused so a misspelled one is reported when the
/// agent's files are read, rather than silently doing nothing.
#[derive(Debug, Clone, Copy)]
pub struct BashSettings {
    /// How long a command may run before it is killed, in seconds.
    pub bash_timeout: u64,
}

pub fn default_bash_timeout() -> (r: u64)
    ensures
        r == DEFAULT_BASH_TIMEOUT,
{
    DEFAULT_BASH_TIMEOUT
}

/// The first key of a settings object other than `bash_timeout`, from `i` on.
pub open spec fn first_unknown_key(keys: Seq<Seq<char>>, i: int) -> Option<Seq<char>>
    decreases keys.len() - i,
{
    if i < 0 || i >= keys.len() {
        None
    } else if keys[i] != "bash_timeout"@ {
        Some(keys[i])
    } else {
        first_unknown_key(keys, i + 1)
    }
}

/// What a settings object comes to, given its keys (absent when it is not an
/// object) and what its `bash_timeout` held: absent, not a whole number, or
/// the number.
pub open spec fn settings_outcome(
    keys: Option<Seq<Seq<char>>>,
    timeout: Option<Option<u64>>,
) -> Result<u64, Seq<char>> {
    match keys {
        None => Err("invalid type: expected an object of settings"@),
        Some(ks) => match first_unknown_key(ks, 0) {
            Some(k) => Err("unknown field `"@ + k + "`, expected `bash_timeout`"@),
            None => match timeout {
                None => Ok(DEFAULT_BASH_TIMEOUT),
                Some(Some(n)) => Ok(n),
                Some(None) => Err(
                    "invalid type for `bash_timeout`: expected a whole number of seconds"@,
                ),
            },
        },
    }
}

/// What the config block `config` comes to: the timeout it sets, or why it
/// is refused.
pub open spec fn bash_settings_of(config: Seq<char>) -> Result<u64, Seq<char>> {
    settings_outcome(
        json_keys_of(config),
        match json_field_of(config, "bash_timeout"@) {
            None => None,
            Some(f) => Some(json_u64_of(f)),
        },
    )
}

impl BashSettings {
    /// The settings for a block with these keys and this `bash_timeout`.
    #[verifier::loop_isolation(false)]
    pub fn from_parts(keys: Option<Vec<String>>, timeout: Option<Option<u64>>) -> (r: Result<
        BashSettings,
        String,
    >)
        ensures
            match settings_outcome(
                match keys {
                    Some(ks) => Some(strings_view(ks@)),
                    None => None,
                },
                timeout,
            ) {
                Ok(n) => r matches Ok(s) && s.bash_timeout == n,
                Err(e) => r matches Err(m) && m@ == e,
            },
    {
        let keys = match keys {
            Some(keys) => keys,
            None => {
                return Err("invalid type: expected an object of settings".to_owned());
            },
        };
        let ghost ks = strings_view(keys@);
        let mut i: usize = 0;
        while i < keys.len()
            invariant
                0 <= i <= keys@.len(),
                ks == strings_view(keys@),
                first_unknown_key(ks, 0) == first_unknown_key(ks, i as int),
            decreases keys.len() - i,
        {
            assert(ks[i as int] == keys@[i as int]@);
            if !str_eq(keys[i].as_str(), "bash_timeout") {
                assert(first_unknown_key(ks, i as int) == Some(ks[i as int]));
                let mut e = "unknown field `".to_owned();
                e.append(keys[i].as_str());
                e.append("`, expected `bash_timeout`");
                return Err(e);
            }
            i += 1;
        }
        match timeout {
            None => Ok(BashSettings { bash_timeout: DEFAULT_BASH_TIMEOUT }),
            Some(Some(n)) => Ok(BashSettings { bash_timeout: n }),
            Some(None) => Err(
                "invalid type for `bash_timeout`: expected a whole number of seconds".to_owned(),
            ),
        }
    }

    /// Reads the settings out of a tool's config block, an empty object when
    /// the user wrote none: `bash_timeout` is a whole number of seconds,
    /// defaulting to 120, and no other key is allowed.
    pub fn parse(config: &str) -> (r: Result<BashSettings, String>)
        ensures
            match bash_settings_of(config@) {
                Ok(n) => r matches Ok(s) && s.bash_timeout == n,
                Err(e) => r matches Err(m) && m@ == e,
            },
    {
        let timeout = match json_field(config, "bash_timeout") {
            None => None,
            Some(v) => Some(json_u64(v.as_str())),
        };
        BashSettings::from_parts(json_keys(config), timeout)
    }

    /// How long a command may run before it is killed, in seconds.
    pub fn timeout_secs(&self) -> (r: u64)
        ensures
            r == self.bash_timeout,
    {
        self.bash_timeout
    }
}

impl BashTool {
    pub fn new() -> (t: BashTool)
        ensures
            t == BashTool,
    {
        BashTool
    }

    pub fn name(&self) -> (r: String)
        ensures
            r@ == "bash"@,
    {
        "bash".to_owned()
    }

    pub fn description(&self) -> (r: String)
        ensures
            r@ == BASH_DESCRIPTION@,
    {
        BASH_DESCRIPTION.to_owned()
    }

    pub fn parameters(&self) -> (r: String)
        ensures
            r@ == BASH_PARAMETERS@,
    {
        BASH_PARAMETERS.to_owned()
    }

    pub fn validate_config(&self, config: &str) -> (r: Result<(), String>)
        ensures
            match bash_settings_of(config@) {
                Ok(_) => r is Ok,
                Err(e) => r matches Err(m) && m@ == e,
            },
    {
        match BashSettings::parse(config) {
            Ok(_) => Ok(()),
            Err(e) => Err(e),
        }
    }

    /// Reads the settings once, when the agent first reaches for the tool, so
    /// a state that exists is a state whose settings are usable.
    pub fn new_state(&self, context: &ToolContext) -> (r: Result<BashState, ToolError>)
        ensures
            match bash_settings_of(context.spec_config()) {
                Ok(n) => r matches Ok(s) && s.spec_settings().bash_timeout == n,
                Err(e) => r matches Err(ToolError::InvalidConfig { error }) && error@ == e,
            },
    {
        let config = context.config();
        match BashSettings::parse(config.as_str()) {
            Ok(settings) => Ok(BashState { settings }),
            Err(error) => Err(ToolError::InvalidConfig { error }),
        }
    }
}

/// What the tool keeps for one agent: its settings, read once.
#[derive(Debug, Clone, Copy)]
pub struct BashState {
    settings: BashSettings,
}

/// What the `command` argument of a call with the arguments `args` came to:
/// absent, present but not a string, or the string.
pub open spec fn command_field(args: Seq<char>) -> Option<Option<Seq<char>>> {
    match json_field_of(args, "command"@) {
        None => None,
        Some(f) => Some(json_str_of(f)),
    }
}

/// Checks the `command` argument a call carries: it must be there, be a
/// string, and not be blank.
pub fn command_from(field: Option<Option<String>>) -> (r: Result<String, ToolError>)
    ensures
        match field {
            None => r matches Err(ToolError::MissingArgument { argument }) && argument@
                == "command"@,
            Some(None) => r matches Err(ToolError::InvalidArgument { argument, expected })
                && argument@ == "command"@ && expected@ == "a string"@,
            Some(Some(c)) => if all_space(c@) {
                r matches Err(ToolError::InvalidArgument { argument, expected }) && argument@
                    == "command"@ && expected@ == "not empty"@
            } else {
                r matches Ok(s) && s@ == c@
            },
        },
{
    match field {
        None => Err(ToolError::MissingArgument { argument: "command".to_owned() }),
        Some(None) => Err(
            ToolError::InvalidArgument {
                argument: "command".to_owned(),
                expected: "a string".to_owned(),
            },
        ),
        Some(Some(c)) => {
            if is_blank(c.as_str()) {
                Err(
                    ToolError::InvalidArgument {
                        argument: "command".to_owned(),
                        expected: "not empty".to_owned(),
                    },
                )
            } else {
                Ok(c)
            }
        },
    }
}

impl BashState {
    pub fn new(settings: BashSettings) -> (s: BashState)
        ensures
            s.spec_settings() == settings,
    {
        BashState { settings }
    }

    pub closed spec fn spec_settings(&self) -> BashSettings {
        self.settings
    }

    pub fn settings(&self) -> (r: BashSettings)
        ensures
            r == self.spec_settings(),
    {
        self.settings
    }

    /// The command to run for a call with these arguments, or why the call is
    /// refused before anything runs: it must be there, be a string, and not be
    /// blank.
    pub fn command(&self, arguments: &str) -> (r: Result<String, ToolError>)
        ensures
            match command_field(arguments@) {
                None => r matches Err(ToolError::MissingArgument { argument }) && argument@
                    == "command"@,
                Some(None) => r matches Err(ToolError::InvalidArgument { argument, expected })
                    && argument@ == "command"@ && expected@ == "a string"@,
                Some(Some(c)) => if all_space(c) {
                    r matches Err(ToolError::InvalidArgument { argument, expected }) && argument@
                        == "command"@ && expected@ == "not empty"@
                } else {
                    r matches Ok(s) && s@ == c
                },
            },
    {
        let field = match json_field(arguments, "command") {
            None => None,
            Some(v) => Some(json_str(v.as_str())),
        };
        command_from(field)
    }
}

// Output ////////////////////////////
//////////////////////////////////////

/// The text `String::from_utf8_lossy` reads `bytes` as: valid utf-8 decoded,
/// anything else replaced. The same bytes always read the same way.
pub uninterp spec fn lossy_text(bytes: Seq<u8>) -> Seq<char>;

/// Reads `bytes` as utf-8 with `String::from_utf8_lossy`.
#[verifier::external_body]
fn utf8_lossy(bytes: &[u8]) -> (r: String)
    ensures
        r@ == lossy_text(bytes@),
{
    String::from_utf8_lossy(bytes).into_owned()
}

/// One stream of a command's output. Everything the command writes is
/// counted, but only the first `MAX_STREAM_BYTES` are kept, so the model can
/// be told what it is not seeing.
pub struct Stream {
    kept: Vec<u8>,
    total: usize,
    /// Every byte pushed so far.
    seen: Ghost<Seq<u8>>,
}

impl Stream {
    #[verifier::type_invariant]
    spec fn inv(&self) -> bool {
        &&& self.total == self.seen@.len()
        &&& self.kept@ == self.seen@.take(
            if self.seen@.len() < MAX_STREAM_BYTES {
                self.seen@.len() as int
            } else {
                MAX_STREAM_BYTES as int
            },
        )
    }

/// What is kept is always the head of what was pushed, as much of it as
    /// the limit allows.
    pub open spec fn keeps_head(&self) -> bool {
        self.spec_kept() == self.spec_seen().take(
            if self.spec_seen().len() < MAX_STREAM_BYTES {
                self.spec_seen().len() as int
            } else {
                MAX_STREAM_BYTES as int
            },
        )
    }

    /// Every byte pushed so far.
    pub closed spec fn spec_seen(&self) -> Seq<u8> {
        self.seen@
    }

    /// The bytes kept: the head of what was pushed.
    pub closed spec fn spec_kept(&self) -> Seq<u8> {
        self.kept@
    }

    pub fn new() -> (s: Stream)
        ensures
            s.spec_seen().len() == 0,
            s.keeps_head(),
    {
        let kept: Vec<u8> = Vec::new();
        assert(kept@ =~= Seq::<u8>::empty().take(0));
        Stream { kept, total: 0, seen: Ghost(Seq::empty()) }
    }

    /// How many bytes were pushed.
    pub fn total(&self) -> (r: usize)
        ensures
            r == self.spec_seen().len(),
    {
        proof {
            use_type_invariant(self);
        }
        self.total
    }

    pub fn push(&mut self, chunk: &[u8])
        requires
            old(self).spec_seen().len() + chunk@.len() <= usize::MAX,
        ensures
            final(self).spec_seen() == old(self).spec_seen() + chunk@,
            final(self).keeps_head(),
    {
        proof {
            use_type_invariant(&*self);
        }
        let ghost before = self.seen@;
        let room = MAX_STREAM_BYTES - self.kept.len();
        let take = if room < chunk.len() {
            room
        } else {
            chunk.len()
        };
        let mut kept = self.kept.clone();
        assert(kept@ =~= self.kept@);
        let mut i: usize = 0;
        let ghost kept0 = self.kept@;
        while i < take
            invariant
                0 <= i <= take <= chunk@.len(),
                kept@ == kept0 + chunk@.take(i as int),
            decreases take - i,
        {
            kept.push(chunk[i]);
            assert(chunk@.take(i + 1) == chunk@.take(i as int).push(chunk@[i as int]));
            i += 1;
        }
        let ghost after = before + chunk@;
        assert(kept@ =~= after.take(
            if after.len() < MAX_STREAM_BYTES {
                after.len() as int
            } else {
                MAX_STREAM_BYTES as int
            },
        ));
        *self = Stream { kept, total: self.total + chunk.len(), seen: Ghost(after) };
        assert(self.kept@ =~= self.seen@.take(
            if self.seen@.len() < MAX_STREAM_BYTES {
                self.seen@.len() as int
            } else {
                MAX_STREAM_BYTES as int
            },
        ));
    }

    /// How the stream reads in the tool's output. `complete` says whether the
    /// reader reached the end of the pipe; when it did not, this is what had
    /// arrived rather than everything there was, and it says so.
    pub fn render(&self, complete: bool) -> (r: String)
        ensures
            r@ == stream_text(self.spec_kept(), self.spec_seen().len(), complete),
    {
        proof {
            use_type_invariant(self);
        }
        if self.total == 0 {
            return if complete {
                "(none)".to_owned()
            } else {
                "(nothing yet; the command was still writing)".to_owned()
            };
        }
        let mut text = utf8_lossy(self.kept.as_slice());
        let dropped = self.total - self.kept.len();
        if dropped > 0 {
            let n = decimal_string(dropped as u64);
            if complete {
                text.append("\n… truncated, ");
                text.append(n.as_str());
                text.append(" more bytes");
            } else {
                text.append("\n… truncated, at least ");
                text.append(n.as_str());
                text.append(" more bytes, and the command was still writing");
            }
        } else if !complete {
            text.append("\n… the command was still writing");
        }
        text
    }
}

/// How a stream reads, given the bytes kept, how many there were in all, and
/// whether the reader saw the end of the pipe.
pub open spec fn stream_text(kept: Seq<u8>, total: nat, complete: bool) -> Seq<char> {
    if total == 0 {
        if complete {
            "(none)"@
        } else {
            "(nothing yet; the command was still writing)"@
        }
    } else {
        let dropped = (total - kept.len()) as nat;
        if dropped > 0 && complete {
            lossy_text(kept) + "\n… truncated, "@ + decimal(dropped) + " more bytes"@
        } else if dropped > 0 {
            lossy_text(kept) + "\n… truncated, at least "@ + decimal(dropped)
                + " more bytes, and the command was still writing"@
        } else if complete {
            lossy_text(kept)
        } else {
            lossy_text(kept) + "\n… the command was still writing"@
        }
    }
}

/// How a command ended.
#[derive(Debug, Clone, Copy)]
pub enum Outcome {
    /// It exited, with its exit code unless a signal ended it.
    Exited { code: Option<i32> },
    /// It outran its timeout and was killed. `group_killed` says whether
    /// everything it started went with it.
    TimedOut { group_killed: bool },
}

/// The first line of the report: how the command ended, saying what actually
/// happened, since work that is still running is work the model must not
/// assume it undid.
pub open spec fn outcome_text(outcome: Outcome, timeout_secs: u64) -> Seq<char> {
    match outcome {
        Outcome::Exited { code: Some(c) } => "exit code: "@ + signed_decimal(c as int),
        Outcome::Exited { code: None } => "killed by a signal"@,
        Outcome::TimedOut { group_killed: true } => "timed out after "@ + decimal(
            timeout_secs as nat,
        ) + "s; it and everything it started were killed"@,
        Outcome::TimedOut { group_killed: false } => "timed out after "@ + decimal(
            timeout_secs as nat,
        ) + "s and the shell was killed, but anything it started may still be running"@,
    }
}

/// Whether a command that has run for `elapsed_millis` milliseconds has used
/// up its `timeout_secs` and is to be killed.
pub fn past_deadline(elapsed_millis: u64, timeout_secs: u64) -> (r: bool)
    ensures
        r == (elapsed_millis >= timeout_secs * 1000),
{
    let whole = elapsed_millis / 1000;
    proof {
        assert(whole >= timeout_secs <==> elapsed_millis >= timeout_secs * 1000) by (nonlinear_arith)
            requires
                whole == elapsed_millis / 1000,
        ;
    }
    whole >= timeout_secs
}

/// What a command came to, as the model reads it: how it ended, then each
/// stream under its own heading.
pub fn report(
    outcome: Outcome,
    timeout_secs: u64,
    stdout: &Stream,
    stdout_complete: bool,
    stderr: &Stream,
    stderr_complete: bool,
) -> (r: ToolOutput)
    ensures
        r.spec_content() == outcome_text(outcome, timeout_secs) + "\nstdout:\n"@ + stream_text(
            stdout.spec_kept(),
            stdout.spec_seen().len(),
            stdout_complete,
        ) + "\nstderr:\n"@ + stream_text(
            stderr.spec_kept(),
            stderr.spec_seen().len(),
            stderr_complete,
        ),
        !r.spec_ends_turn(),
{
    let mut text = match outcome {
        Outcome::Exited { code: Some(c) } => {
            let mut t = "exit code: ".to_owned();
            t.append(signed_decimal_string(c).as_str());
            t
        },
        Outcome::Exited { code: None } => "killed by a signal".to_owned(),
        Outcome::TimedOut { group_killed } => {
            let mut t = "timed out after ".to_owned();
            t.append(decimal_string(timeout_secs).as_str());
            if group_killed {
                t.append("s; it and everything it started were killed");
            } else {
                t.append(
                    "s and the shell was killed, but anything it started may still be running",
                );
            }
            t
        },
    };
    text.append("\nstdout:\n");
    text.append(stdout.render(stdout_complete).as_str());
    text.append("\nstderr:\n");
    text.append(stderr.render(stderr_complete).as_str());
    ToolOutput::new(text)
}

} // verus!
