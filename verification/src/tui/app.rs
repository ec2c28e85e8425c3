//! What the terminal ui shows, worked out as text: the transcript wrapped to
//! the window, the key hints, the agent list's selection and the checklist of
//! an agent's files. Drawing it is the ui's part.

use vstd::prelude::*;
use vstd::string::*;

use crate::config::{config_error_text, ConfigError};
use crate::openrouter::types::{message_content, messages_view, Message, MessageView, ToolCallView};
use crate::runtime::runtime::{runtime_error_text, RuntimeError};
use crate::runtime::agent::{state_started, AgentDefinition, AgentDefinitionView, AgentState, AgentStateView};
use crate::text::{
    chars_of, decimal, decimal_string, join, joined, push_char, string_from_chars, strings_view,
};

verus! {

// The app ///////////////////////////
//////////////////////////////////////

/// What the ui is started with: the project directory Apila keeps its agents
/// in.
#[derive(Debug, Clone)]
pub struct Args {
    pub project_dir: String,
}

impl Args {
    pub fn new(project_dir: String) -> (r: Args)
        ensures
            r.project_dir == project_dir,
    {
        Args { project_dir }
    }
}

/// Why the ui stopped or could not start.
#[derive(Debug)]
pub enum TUIAppError {
    /// The terminal could not be drawn to: the reason.
    RatatuiErr(String),
    InalidArgs(String),
    RuntimeError(RuntimeError),
    ConfigError(ConfigError),
}

/// What each ui error says.
pub open spec fn tui_app_error_text(e: TUIAppError) -> Seq<char> {
    match e {
        TUIAppError::RatatuiErr(_) => "ratatui draw error"@,
        TUIAppError::InalidArgs(m) => "invalid arg(s): "@ + m@,
        TUIAppError::RuntimeError(r) => "runtime error: "@ + runtime_error_text(r@),
        TUIAppError::ConfigError(c) => "config error: "@ + config_error_text(c),
    }
}

impl TUIAppError {
    pub fn message(&self) -> (r: String)
        ensures
            r@ == tui_app_error_text(*self),
    {
        match self {
            TUIAppError::RatatuiErr(_) => "ratatui draw error".to_owned(),
            TUIAppError::InalidArgs(m) => {
                let mut r = "invalid arg(s): ".to_owned();
                r.append(m.as_str());
                r
            },
            TUIAppError::RuntimeError(e) => {
                let mut r = "runtime error: ".to_owned();
                let m = e.message();
                r.append(m.as_str());
                r
            },
            TUIAppError::ConfigError(e) => {
                let mut r = "config error: ".to_owned();
                let m = e.message();
                r.append(m.as_str());
                r
            },
        }
    }
}

// Wrapping //////////////////////////
//////////////////////////////////////

/// The columns a tab stop sits at.
pub const TAB_WIDTH: usize = 8;

/// `n` spaces.
pub open spec fn spaces(n: nat) -> Seq<char> {
    Seq::new(n, |_i: int| ' ')
}

/// `p` with each tab replaced by the spaces a terminal draws for it, up to
/// the next multiple of eight columns.
pub open spec fn expand_tabs(p: Seq<char>) -> Seq<char>
    decreases p.len(),
{
    if p.len() == 0 {
        p
    } else {
        let e = expand_tabs(p.drop_last());
        if p.last() == '\t' {
            e + spaces((8 - e.len() % 8) as nat)
        } else {
            e.push(p.last())
        }
    }
}

/// A line as it is drawn: without the carriage return a line break may carry,
/// and with its tabs expanded.
pub open spec fn cleaned(p: Seq<char>) -> Seq<char> {
    if p.len() > 0 && p.last() == '\r' {
        expand_tabs(p.drop_last())
    } else {
        expand_tabs(p)
    }
}

/// The first line break in `t` at or after `i`.
pub open spec fn first_newline(t: Seq<char>, i: int) -> Option<int>
    decreases t.len() - i,
{
    if i < 0 || i >= t.len() {
        None
    } else if t[i] == '\n' {
        Some(i)
    } else {
        first_newline(t, i + 1)
    }
}

pub proof fn lemma_first_newline(t: Seq<char>, i: int)
    requires
        0 <= i,
    ensures
        match first_newline(t, i) {
            Some(j) => i <= j < t.len() && t[j] == '\n' && forall|k: int|
                i <= k < j ==> t[k] != '\n',
            None => forall|k: int| i <= k < t.len() ==> t[k] != '\n',
        },
    decreases t.len() - i,
{
    if i < t.len() && t[i] != '\n' {
        lemma_first_newline(t, i + 1);
    }
}

/// The last space among the first `n` characters of `p`.
pub open spec fn last_space(p: Seq<char>, n: int) -> Option<int>
    decreases n,
{
    if n <= 0 {
        None
    } else if p[n - 1] == ' ' {
        Some(n - 1)
    } else {
        last_space(p, n - 1)
    }
}

pub proof fn lemma_last_space(p: Seq<char>, n: int)
    ensures
        match last_space(p, n) {
            Some(k) => 0 <= k < n && p[k] == ' ',
            None => true,
        },
    decreases n,
{
    if n > 0 && p[n - 1] != ' ' {
        lemma_last_space(p, n - 1);
    }
}

/// The width lines are fitted to: an area too small to draw in reports no
/// width at all, and gets one column.
pub open spec fn fit_width(w: nat) -> nat {
    if w == 0 {
        1
    } else {
        w
    }
}

/// Where the first line of `p` ends: just after the last space that fits, so
/// words stay whole, or at the width when no space fits.
pub open spec fn break_point(p: Seq<char>, w: nat) -> int {
    match last_space(p, fit_width(w) as int) {
        Some(k) => k + 1,
        None => fit_width(w) as int,
    }
}

/// The lines one line of text is broken into to fit `w` columns.
pub open spec fn wrap_line(p: Seq<char>, w: nat) -> Seq<Seq<char>>
    decreases p.len(),
{
    if p.len() <= fit_width(w) {
        seq![p]
    } else {
        let k = break_point(p, w);
        proof {
            lemma_last_space(p, fit_width(w) as int);
        }
        seq![p.take(k)] + wrap_line(p.skip(k), w)
    }
}

/// The lines `t` is drawn as in `w` columns: each of its own lines, cleaned,
/// broken to fit.
pub open spec fn wrap_text(t: Seq<char>, w: nat) -> Seq<Seq<char>>
    decreases t.len(),
{
    match first_newline(t, 0) {
        None => wrap_line(cleaned(t), w),
        Some(j) => {
            proof {
                lemma_first_newline(t, 0);
            }
            wrap_line(cleaned(t.take(j)), w) + wrap_text(t.skip(j + 1), w)
        },
    }
}

/// What of `t` is drawn: its lines, cleaned, one after another.
pub open spec fn drawn_text(t: Seq<char>) -> Seq<char>
    decreases t.len(),
{
    match first_newline(t, 0) {
        None => cleaned(t),
        Some(j) => {
            proof {
                lemma_first_newline(t, 0);
            }
            cleaned(t.take(j)) + drawn_text(t.skip(j + 1))
        },
    }
}

/// `v[from..to]` as a line is drawn.
fn clean_line(v: &Vec<char>, from: usize, to: usize) -> (r: Vec<char>)
    requires
        from <= to <= v@.len(),
    ensures
        r@ == cleaned(v@.subrange(from as int, to as int)),
{
    let ghost raw = v@.subrange(from as int, to as int);
    let end = if to > from && v[to - 1] == '\r' {
        to - 1
    } else {
        to
    };
    assert(raw.len() > 0 && raw.last() == '\r' ==> raw.drop_last() =~= v@.subrange(
        from as int,
        end as int,
    ));
    assert(!(raw.len() > 0 && raw.last() == '\r') ==> raw =~= v@.subrange(
        from as int,
        end as int,
    ));
    let mut out: Vec<char> = Vec::new();
    let mut i: usize = from;
    assert(v@.subrange(from as int, from as int) =~= Seq::<char>::empty());
    while i < end
        invariant
            from <= i <= end <= v@.len(),
            out@ == expand_tabs(v@.subrange(from as int, i as int)),
        decreases end - i,
    {
        let ghost before = out@;
        assert(v@.subrange(from as int, i + 1).drop_last() =~= v@.subrange(from as int, i as int));
        assert(v@.subrange(from as int, i + 1).last() == v@[i as int]);
        if v[i] == '\t' {
            let n: usize = TAB_WIDTH - out.len() % TAB_WIDTH;
            let mut m: usize = 0;
            while m < n
                invariant
                    0 <= m <= n <= 8,
                    out@ == before + spaces(m as nat),
                decreases n - m,
            {
                out.push(' ');
                assert(out@ =~= before + spaces((m + 1) as nat));
                m += 1;
            }
        } else {
            out.push(v[i]);
        }
        i += 1;
    }
    out
}

/// Breaks the line `p` to fit `width` columns, adding its lines to `out`.
fn wrap_line_into(p: &Vec<char>, width: usize, out: &mut Vec<String>)
    ensures
        strings_view(final(out)@) == strings_view(old(out)@) + wrap_line(p@, width as nat),
{
    let w: usize = if width == 0 {
        1
    } else {
        width
    };
    let ghost before = strings_view(out@);
    let mut start: usize = 0;
    assert(p@.skip(0) =~= p@);
    while p.len() - start > w
        invariant
            0 <= start <= p@.len(),
            w == fit_width(width as nat),
            strings_view(out@) + wrap_line(p@.skip(start as int), width as nat) == before
                + wrap_line(p@, width as nat),
        decreases p.len() - start,
    {
        let ghost q = p@.skip(start as int);
        let mut k: usize = start + w;
        while k > start && p[k - 1] != ' '
            invariant
                start <= k <= start + w,
                start + w < p@.len(),
                q == p@.skip(start as int),
                last_space(q, w as int) == last_space(q, (k - start) as int),
            decreases k,
        {
            assert(q[(k - start) - 1] == p@[k - 1]);
            k -= 1;
        }
        let brk: usize = if k > start {
            assert(q[(k - start) - 1] == p@[k - 1]);
            k
        } else {
            start + w
        };
        assert(break_point(q, width as nat) == brk - start);
        let line = string_from_chars(p.as_slice(), start, brk);
        let ghost done = strings_view(out@);
        out.push(line);
        proof {
            assert(strings_view(out@) =~= done.push(line@));
            assert(q.take(brk - start) =~= p@.subrange(start as int, brk as int));
            assert(q.skip(brk - start) =~= p@.skip(brk as int));
            assert(wrap_line(q, width as nat) == seq![q.take(brk - start)] + wrap_line(
                q.skip(brk - start),
                width as nat,
            ));
            assert(done.push(line@) + wrap_line(p@.skip(brk as int), width as nat) =~= done
                + wrap_line(q, width as nat));
        }
        start = brk;
    }
    let line = string_from_chars(p.as_slice(), start, p.len());
    let ghost done = strings_view(out@);
    out.push(line);
    proof {
        let q = p@.skip(start as int);
        assert(strings_view(out@) =~= done.push(line@));
        assert(q =~= p@.subrange(start as int, p@.len() as int));
        assert(wrap_line(q, width as nat) == seq![q]);
        assert(done.push(line@) =~= done + wrap_line(q, width as nat));
    }
}

/// Word wraps `text` to `width` columns. The author's own line breaks are
/// kept, every character is kept (a tab as the spaces a terminal draws for
/// it, the carriage return of a line break aside), lines break after a space
/// rather than inside a word, and no line is wider than asked for: a run with
/// nothing to break on is cut at the width.
pub fn wrap(text: &str, width: usize) -> (r: Vec<String>)
    ensures
        strings_view(r@) == wrap_text(text@, width as nat),
{
    let v = chars_of(text);
    let ghost s = v@;
    let mut out: Vec<String> = Vec::new();
    let mut i: usize = 0;
    let mut done = false;
    assert(s.skip(0) =~= s);
    assert(strings_view(out@) =~= Seq::<Seq<char>>::empty());
    while !done
        invariant
            0 <= i <= v@.len(),
            s == v@,
            s == text@,
            done ==> strings_view(out@) == wrap_text(s, width as nat),
            !done ==> strings_view(out@) + wrap_text(s.skip(i as int), width as nat) == wrap_text(
                s,
                width as nat,
            ),
        decreases (if done {
            0int
        } else {
            1int
        }) + v@.len() - i,
    {
        let ghost t = s.skip(i as int);
        let mut j: usize = i;
        proof {
            lemma_first_newline(t, 0);
        }
        while j < v.len() && v[j] != '\n'
            invariant
                i <= j <= v@.len(),
                t == v@.skip(i as int),
                first_newline(t, 0) == first_newline(t, (j - i) as int),
            decreases v.len() - j,
        {
            assert(t[(j - i) as int] == v@[j as int]);
            j += 1;
        }
        let line = clean_line(&v, i, j);
        let ghost before = strings_view(out@);
        wrap_line_into(&line, width, &mut out);
        if j == v.len() {
            proof {
                assert(first_newline(t, (j - i) as int) is None);
                assert(t =~= v@.subrange(i as int, j as int));
                assert(wrap_text(t, width as nat) == wrap_line(cleaned(t), width as nat));
            }
            done = true;
        } else {
            proof {
                assert(t[(j - i) as int] == v@[j as int]);
                assert(first_newline(t, (j - i) as int) == Some((j - i) as int));
                assert(t.take((j - i) as int) =~= v@.subrange(i as int, j as int));
                assert(t.skip((j - i) + 1) =~= s.skip(j + 1));
                assert(wrap_text(t, width as nat) == wrap_line(cleaned(t.take((j - i) as int)), width as nat)
                    + wrap_text(t.skip((j - i) + 1), width as nat));
                assert(strings_view(out@) + wrap_text(s.skip(j + 1), width as nat) =~= before
                    + wrap_text(t, width as nat));
            }
            i = j + 1;
        }
    }
    out
}


// The transcript ////////////////////
//////////////////////////////////////

/// How much of a tool's output the transcript shows before it says how much
/// more there was. The model still gets all of it.
pub const TOOL_OUTPUT_LINES: usize = 12;

/// `t` with its line breaks turned into spaces.
pub open spec fn flattened(t: Seq<char>) -> Seq<char> {
    t.map_values(|c: char| if c == '\n' || c == '\r' { ' ' } else { c })
}

/// `t` on one line, cut to `width` with an ellipsis when it does not fit.
pub open spec fn one_line_text(t: Seq<char>, width: nat) -> Seq<char> {
    let f = flattened(t);
    if f.len() <= width {
        f
    } else {
        f.take(if width == 0 { 0 } else { width - 1 }) + seq!['\u{2026}']
    }
}

/// `text` on a single line, cut to `width` with an ellipsis when it does not
/// fit.
pub fn one_line(text: &str, width: usize) -> (r: String)
    ensures
        r@ == one_line_text(text@, width as nat),
{
    let v = chars_of(text);
    let ghost f = flattened(v@);
    let mut kept: usize = if v.len() <= width {
        v.len()
    } else if width == 0 {
        0
    } else {
        width - 1
    };
    let mut r = String::new();
    let mut i: usize = 0;
    while i < kept
        invariant
            0 <= i <= kept <= v@.len(),
            v@ == text@,
            f == flattened(v@),
            r@ == f.take(i as int),
        decreases kept - i,
    {
        let c = v[i];
        let d = if c == '\n' || c == '\r' {
            ' '
        } else {
            c
        };
        push_char(&mut r, d);
        assert(f.take(i + 1) =~= f.take(i as int).push(d));
        i += 1;
    }
    if v.len() > width {
        push_char(&mut r, '\u{2026}');
        assert(r@ =~= f.take(kept as int) + seq!['\u{2026}']);
    } else {
        assert(f.take(kept as int) =~= f);
    }
    r
}

/// A token count put compactly: 950 is "950", 24_000 is "24k", 1_000_000 is
/// "1M".
pub open spec fn human_tokens_text(t: nat) -> Seq<char> {
    if t >= 1_000_000 {
        decimal(t / 1_000_000) + "M"@
    } else if t >= 1_000 {
        decimal(t / 1_000) + "k"@
    } else {
        decimal(t)
    }
}

pub fn human_tokens(tokens: u64) -> (r: String)
    ensures
        r@ == human_tokens_text(tokens as nat),
{
    if tokens >= 1_000_000 {
        let mut r = decimal_string(tokens / 1_000_000);
        r.append("M");
        r
    } else if tokens >= 1_000 {
        let mut r = decimal_string(tokens / 1_000);
        r.append("k");
        r
    } else {
        decimal_string(tokens)
    }
}

/// Who a message is labelled as: the opening turn out of `DIRECTIVE.md` is
/// not the user talking.
pub open spec fn role_label(m: MessageView, directive: bool) -> Seq<char> {
    match m {
        MessageView::User { .. } => if directive {
            "directive"@
        } else {
            "you"@
        },
        MessageView::Assistant { .. } => "agent"@,
        MessageView::Tool { .. } => "tool"@,
        MessageView::System { .. } => "system"@,
    }
}

/// How many of a message's wrapped lines are shown: all of them, but a tool's
/// output stops at its cap.
pub open spec fn shown_lines(m: MessageView, wrapped: nat) -> nat {
    if m is Tool && wrapped > TOOL_OUTPUT_LINES {
        TOOL_OUTPUT_LINES as nat
    } else {
        wrapped
    }
}

/// The note under output that was cut short.
pub open spec fn more_lines_text(n: nat) -> Seq<char> {
    "  \u{2026} "@ + decimal(n) + " more lines"@
}

/// The line a tool call is shown as, its arguments kept to that line.
pub open spec fn call_line_text(c: ToolCallView, width: nat) -> Seq<char> {
    "  \u{2192} "@ + c.function.name + "("@ + one_line_text(
        c.function.arguments,
        if width >= 6 { (width - 6) as nat } else { 0 },
    ) + ")"@
}

/// One message as the transcript shows it: a label, the text hard wrapped to
/// the window so it can be scrolled by whole lines, a note when a tool's
/// output was cut short, and a line for each tool call.
pub struct MessageLines {
    pub label: String,
    pub body: Vec<String>,
    pub more: Option<String>,
    pub calls: Vec<String>,
}

/// `ml` is how the message `m` is shown in a window `width` columns wide:
/// its label, its text wrapped and, for a tool's output, capped, a note on
/// what was cut, and a line for each tool call.
pub open spec fn shows(ml: MessageLines, m: MessageView, width: nat, directive: bool) -> bool {
    &&& ml.label@ == role_label(m, directive)
    &&& ({
            let content = match message_content(m) {
                Some(c) => c,
                None => Seq::empty(),
            };
            let wrapped = wrap_text(content, width);
            let shown = shown_lines(m, wrapped.len());
            &&& strings_view(ml.body@) == wrapped.take(shown as int)
            &&& match ml.more {
                Some(note) => shown < wrapped.len() && note@ == more_lines_text(
                    (wrapped.len() - shown) as nat,
                ),
                None => shown == wrapped.len(),
            }
        })
    &&& ml.calls@.len() == calls_of_message(m).len()
    &&& forall|i: int|
            0 <= i < ml.calls@.len() ==> #[trigger] ml.calls@[i]@ == call_line_text(
                calls_of_message(m)[i],
                width,
            )
}

pub fn message_lines(message: &Message, width: usize, directive: bool) -> (r: MessageLines)
    ensures
        shows(r, message@, width as nat, directive),
{
    let label = match message {
        Message::User { .. } => if directive {
            "directive".to_owned()
        } else {
            "you".to_owned()
        },
        Message::Assistant { .. } => "agent".to_owned(),
        Message::Tool { .. } => "tool".to_owned(),
        Message::System { .. } => "system".to_owned(),
    };
    let content = match message.content() {
        Some(c) => c,
        None => "",
    };
    proof {
        if message_content(message@) is None {
            reveal_strlit("");
            assert(content@ =~= Seq::<char>::empty());
        }
    }
    let wrapped = wrap(content, width);
    let is_tool = match message {
        Message::Tool { .. } => true,
        _ => false,
    };
    let shown: usize = if is_tool && wrapped.len() > TOOL_OUTPUT_LINES {
        TOOL_OUTPUT_LINES
    } else {
        wrapped.len()
    };
    let ghost ws = strings_view(wrapped@);
    let mut body: Vec<String> = Vec::new();
    let mut i: usize = 0;
    while i < shown
        invariant
            0 <= i <= shown <= wrapped@.len(),
            ws == strings_view(wrapped@),
            strings_view(body@) == ws.take(i as int),
        decreases shown - i,
    {
        let ghost before = body@;
        let line = wrapped[i].clone();
        body.push(line);
        assert(strings_view(body@) =~= strings_view(before).push(ws[i as int]));
        assert(ws.take(i + 1) =~= ws.take(i as int).push(ws[i as int]));
        i += 1;
    }
    let more = if shown < wrapped.len() {
        let mut m = "  \u{2026} ".to_owned();
        let n = decimal_string((wrapped.len() - shown) as u64);
        m.append(n.as_str());
        m.append(" more lines");
        Some(m)
    } else {
        None
    };
    let calls_in = message.tool_calls();
    let ghost cv = crate::openrouter::types::tool_calls_view(calls_in@);
    let inner: usize = if width >= 6 {
        width - 6
    } else {
        0
    };
    let mut calls: Vec<String> = Vec::new();
    let mut k: usize = 0;
    while k < calls_in.len()
        invariant
            0 <= k <= calls_in@.len(),
            cv == crate::openrouter::types::tool_calls_view(calls_in@),
            cv == calls_of_message(message@),
            inner == (if width >= 6 { (width - 6) as nat } else { 0 }),
            calls@.len() == k,
            forall|j: int| 0 <= j < k ==> #[trigger] calls@[j]@ == call_line_text(cv[j], width as nat),
        decreases calls_in.len() - k,
    {
        let call = &calls_in[k];
        let mut line = "  \u{2192} ".to_owned();
        line.append(call.function.name.as_str());
        line.append("(");
        let args = one_line(call.function.arguments.as_str(), inner);
        line.append(args.as_str());
        line.append(")");
        assert(cv[k as int] == call@);
        calls.push(line);
        k += 1;
    }
    MessageLines { label, body, more, calls }
}

/// The note shown under a message that waits for the next turn.
pub const QUEUED_NOTE: &'static str = "  \u{2191} queued for the next turn";

/// The line shown while the agent waits on the model.
pub const THINKING_LINE: &'static str = "\u{2026}thinking";

/// One piece of a running agent's transcript, top to bottom.
pub enum TranscriptPart {
    /// A message of the conversation.
    Said(MessageLines),
    /// A message the user sent that waits for the next turn.
    Queued(MessageLines),
    /// The agent is waiting on the model.
    Thinking,
    /// The line saying why the agent failed.
    Failed(String),
}

/// How many parts the transcript of `d` has: one per message said or
/// queued, and one for the agent waiting on the model or having failed.
pub open spec fn transcript_len(d: AgentDefinitionView) -> nat {
    d.messages.len() + d.queued.len() + match d.state {
        AgentStateView::Working => 1nat,
        AgentStateView::Failed(_) => 1nat,
        _ => 0nat,
    }
}

/// What a running agent's transcript shows, in a window `width` columns
/// wide: the conversation, the first message marked as the directive when
/// the directive opened it; then each queued message; then a line while the
/// agent waits on the model, or the error it failed with.
pub fn transcript(d: &AgentDefinition, width: usize) -> (r: Vec<TranscriptPart>)
    ensures
        r@.len() == transcript_len(d@),
        forall|i: int|
            0 <= i < d@.messages.len() ==> (#[trigger] r@[i] matches TranscriptPart::Said(ml)
                && shows(ml, d@.messages[i], width as nat, i == 0 && d@.opened_with_directive)),
        forall|j: int|
            0 <= j < d@.queued.len() ==> (#[trigger] r@[d@.messages.len() + j] matches TranscriptPart::Queued(ml)
                && shows(ml, d@.queued[j], width as nat, false)),
        d@.state is Working ==> r@.last() is Thinking,
        d@.state matches AgentStateView::Failed(e) ==> (r@.last() matches TranscriptPart::Failed(t) && t@
            == e),
{
    let messages = d.messages();
    let opened = d.opened_with_directive();
    let mut r: Vec<TranscriptPart> = Vec::new();
    for i in 0..messages.len()
        invariant
            messages_view(messages@) == d@.messages,
            opened == d@.opened_with_directive,
            r@.len() == i,
            forall|k: int|
                0 <= k < i ==> (#[trigger] r@[k] matches TranscriptPart::Said(ml) && shows(
                    ml,
                    d@.messages[k],
                    width as nat,
                    k == 0 && d@.opened_with_directive,
                )),
    {
        let ml = message_lines(&messages[i], width, i == 0 && opened);
        r.push(TranscriptPart::Said(ml));
    }
    let queued = d.queued_messages();
    let n = messages.len();
    for j in 0..queued.len()
        invariant
            messages_view(queued@) == d@.queued,
            n == d@.messages.len(),
            r@.len() == n + j,
            forall|k: int|
                0 <= k < n ==> (#[trigger] r@[k] matches TranscriptPart::Said(ml) && shows(
                    ml,
                    d@.messages[k],
                    width as nat,
                    k == 0 && d@.opened_with_directive,
                )),
            forall|k: int|
                0 <= k < j ==> (#[trigger] r@[n + k] matches TranscriptPart::Queued(ml) && shows(
                    ml,
                    d@.queued[k],
                    width as nat,
                    false,
                )),
    {
        let ml = message_lines(&queued[j], width, false);
        r.push(TranscriptPart::Queued(ml));
    }
    match d.state() {
        AgentState::Working => r.push(TranscriptPart::Thinking),
        AgentState::Failed(e) => r.push(TranscriptPart::Failed(e)),
        _ => {},
    }
    r
}

/// What the detail screen shows of the selected agent.
#[derive(Debug, Clone, Copy, PartialEq, Eq, Structural)]
pub enum DetailView {
    /// The files its configuration is read from, while it is being set up.
    Configuring,
    /// Its chat session, once it has started.
    Session,
}

/// The view the detail screen takes for `d`: its session once it has
/// started, its configuration before.
pub fn detail_view(d: &AgentDefinition) -> (r: DetailView)
    ensures
        (r == DetailView::Session) == state_started(d@.state),
{
    match d.state() {
        AgentState::Configuring => DetailView::Configuring,
        _ => DetailView::Session,
    }
}

/// How far the transcript is scrolled so its last `height` lines show.
pub fn scroll_offset(total: usize, height: usize) -> (r: usize)
    ensures
        r == if total > height { total - height } else { 0 },
{
    if total > height {
        total - height
    } else {
        0
    }
}

/// The tool calls a message carries: an assistant's, or none.
pub open spec fn calls_of_message(m: MessageView) -> Seq<ToolCallView> {
    match m {
        MessageView::Assistant { tool_calls, .. } => tool_calls,
        _ => Seq::empty(),
    }
}

// Keys and selection ////////////////
//////////////////////////////////////

/// Where key presses go. The agent list drives everything until the user
/// steps into a started agent's chat.
#[derive(Debug, Clone, Copy, PartialEq, Eq, Structural)]
pub enum Focus {
    Agents,
    Chat,
}

pub fn focus(chat_focused: bool, selected_started: bool) -> (r: Focus)
    ensures
        r == (if chat_focused && selected_started {
            Focus::Chat
        } else {
            Focus::Agents
        }),
{
    if chat_focused && selected_started {
        Focus::Chat
    } else {
        Focus::Agents
    }
}

/// Where the agent list's selection lands after moving it `offset` rows:
/// clamped to the rows there are, the first row when nothing was selected,
/// and nothing when there are no rows.
pub open spec fn moved_selection(selected: Option<usize>, offset: int, count: nat) -> Option<int> {
    if count == 0 {
        None
    } else {
        match selected {
            None => Some(0),
            Some(s) => {
                let t = s + offset;
                Some(
                    if t < 0 {
                        0
                    } else if t > count - 1 {
                        count - 1
                    } else {
                        t
                    },
                )
            },
        }
    }
}

pub fn select_offset(selected: Option<usize>, offset: isize, count: usize) -> (r: Option<usize>)
    ensures
        match r {
            Some(i) => moved_selection(selected, offset as int, count as nat) == Some(i as int),
            None => moved_selection(selected, offset as int, count as nat) is None,
        },
{
    if count == 0 {
        return None;
    }
    match selected {
        None => Some(0),
        Some(s) => {
            let t: i128 = s as i128 + offset as i128;
            if t < 0 {
                Some(0)
            } else if t > count as i128 - 1 {
                Some(count - 1)
            } else {
                Some(t as usize)
            }
        },
    }
}

/// What `<Enter>` does to the selected agent, for the key hints: chat with a
/// started one; run one whose directive gives it something to work on; open
/// the chat of one without.
pub open spec fn enter_label_text(d: Option<AgentDefinitionView>) -> Seq<char> {
    match d {
        None => "Run Agent"@,
        Some(d) => if state_started(d.state) {
            "Chat"@
        } else {
            match d.config_files {
                Some(f) => if f.directive_file.present {
                    "Run Agent"@
                } else {
                    "Open Chat"@
                },
                None => "Open Chat"@,
            }
        },
    }
}

pub fn enter_label(definition: Option<&AgentDefinition>) -> (r: &'static str)
    ensures
        r@ == enter_label_text(
            match definition {
                Some(d) => Some(d@),
                None => None,
            },
        ),
{
    match definition {
        None => "Run Agent",
        Some(d) => {
            if d.state().started() {
                return "Chat";
            }
            match d.config_files() {
                Some(files) => if files.directive_file().present() {
                    "Run Agent"
                } else {
                    "Open Chat"
                },
                None => "Open Chat",
            }
        },
    }
}

/// The key hints along the bottom, as pairs of what a key does and the key,
/// which follow whatever has focus.
pub open spec fn instruction_pairs_of(focus: Focus, enter: Seq<char>) -> Seq<(Seq<char>, Seq<char>)> {
    match focus {
        Focus::Agents => seq![
            ("Quit"@, " <Q>"@),
            ("Move"@, " <\u{2191}/\u{2193}>"@),
            (enter, " <Enter>"@),
            ("Reload"@, " <R>"@),
        ],
        Focus::Chat => seq![
            ("Send"@, " <Enter>"@),
            ("Leave Chat"@, " <Esc>"@),
            ("Quit"@, " <Ctrl+C>"@),
        ],
    }
}

pub open spec fn pairs_view(v: Seq<(String, String)>) -> Seq<(Seq<char>, Seq<char>)> {
    v.map_values(|p: (String, String)| (p.0@, p.1@))
}

pub fn instruction_pairs(focus: Focus, enter_label: &str) -> (r: Vec<(String, String)>)
    ensures
        pairs_view(r@) == instruction_pairs_of(focus, enter_label@),
{
    let mut r: Vec<(String, String)> = Vec::new();
    match focus {
        Focus::Agents => {
            r.push(("Quit".to_owned(), " <Q>".to_owned()));
            r.push(("Move".to_owned(), " <\u{2191}/\u{2193}>".to_owned()));
            r.push((enter_label.to_owned(), " <Enter>".to_owned()));
            r.push(("Reload".to_owned(), " <R>".to_owned()));
        },
        Focus::Chat => {
            r.push(("Send".to_owned(), " <Enter>".to_owned()));
            r.push(("Leave Chat".to_owned(), " <Esc>".to_owned()));
            r.push(("Quit".to_owned(), " <Ctrl+C>".to_owned()));
        },
    }
    assert(pairs_view(r@) =~= instruction_pairs_of(focus, enter_label@));
    r
}

// The configuration screen //////////
//////////////////////////////////////

/// The mark a file gets in the checklist: there, missing and needed, or
/// missing and optional, which is no problem to fix.
pub open spec fn file_mark_text(present: bool, required: bool) -> Seq<char> {
    if present {
        "[\u{2713}]"@
    } else if required {
        "[ ]"@
    } else {
        "[-]"@
    }
}

pub fn file_mark(present: bool, required: bool) -> (r: &'static str)
    ensures
        r@ == file_mark_text(present, required),
{
    if present {
        "[\u{2713}]"
    } else if required {
        "[ ]"
    } else {
        "[-]"
    }
}

/// The tools line of an agent's details: an agent whose `config.json` failed
/// to load has no tools at all, which says more than an empty list.
pub open spec fn tools_text(names: Seq<Seq<char>>) -> Seq<char> {
    if names.len() == 0 {
        "(none)"@
    } else {
        joined(names, ", "@)
    }
}

pub fn tools_line(names: &Vec<String>) -> (r: String)
    ensures
        r@ == tools_text(strings_view(names@)),
{
    if names.len() == 0 {
        "(none)".to_owned()
    } else {
        join(names, ", ")
    }
}

pub open spec fn dir_text(dir: Seq<char>) -> Seq<char> {
    if dir.len() == 0 {
        "(not selected)"@
    } else {
        dir
    }
}

pub fn dir_line(dir: &str) -> (r: String)
    ensures
        r@ == dir_text(dir@),
{
    let v = chars_of(dir);
    if v.len() == 0 {
        "(not selected)".to_owned()
    } else {
        dir.to_owned()
    }
}

/// What the ready line says `<Enter>` will do: the directive decides whether
/// it starts the agent working or just opens the chat.
pub open spec fn ready_tail_text(directive_present: bool) -> Seq<char> {
    if directive_present {
        " to run the agent on its directive."@
    } else {
        " to open the chat. With no directive the agent starts on your first message."@
    }
}

pub fn ready_tail(directive_present: bool) -> (r: &'static str)
    ensures
        r@ == ready_tail_text(directive_present),
{
    if directive_present {
        " to run the agent on its directive."
    } else {
        " to open the chat. With no directive the agent starts on your first message."
    }
}

// Laws of wrapping //////////////////
//////////////////////////////////////

proof fn lemma_line_fits(p: Seq<char>, w: nat)
    ensures
        forall|i: int| 0 <= i < wrap_line(p, w).len() ==> #[trigger] wrap_line(p, w)[i].len()
            <= fit_width(w),
    decreases p.len(),
{
    if p.len() > fit_width(w) {
        lemma_last_space(p, fit_width(w) as int);
        let k = break_point(p, w);
        lemma_line_fits(p.skip(k), w);
        let r = wrap_line(p, w);
        assert forall|i: int| 0 <= i < r.len() implies #[trigger] r[i].len() <= fit_width(w) by {
            if i > 0 {
                assert(r[i] == wrap_line(p.skip(k), w)[i - 1]);
            }
        }
    }
}

/// No wrapped line is wider than it was asked for, or than one column when
/// it was asked for none.
pub proof fn lemma_wrapped_lines_fit(t: Seq<char>, w: nat)
    ensures
        forall|i: int| 0 <= i < wrap_text(t, w).len() ==> #[trigger] wrap_text(t, w)[i].len()
            <= fit_width(w),
    decreases t.len(),
{
    lemma_first_newline(t, 0);
    match first_newline(t, 0) {
        None => lemma_line_fits(cleaned(t), w),
        Some(j) => {
            let a = wrap_line(cleaned(t.take(j)), w);
            let b = wrap_text(t.skip(j + 1), w);
            lemma_line_fits(cleaned(t.take(j)), w);
            lemma_wrapped_lines_fit(t.skip(j + 1), w);
            assert forall|i: int| 0 <= i < (a + b).len() implies #[trigger] (a + b)[i].len()
                <= fit_width(w) by {
                if i >= a.len() {
                    assert((a + b)[i] == b[i - a.len()]);
                } else {
                    assert((a + b)[i] == a[i]);
                }
            }
        },
    }
}

proof fn lemma_line_keeps_every_character(p: Seq<char>, w: nat)
    ensures
        wrap_line(p, w).flatten() == p,
    decreases p.len(),
{
    if p.len() <= fit_width(w) {
        seq![p].lemma_flatten_one_element();
    } else {
        lemma_last_space(p, fit_width(w) as int);
        let k = break_point(p, w);
        lemma_line_keeps_every_character(p.skip(k), w);
        vstd::seq_lib::lemma_flatten_concat(seq![p.take(k)], wrap_line(p.skip(k), w));
        seq![p.take(k)].lemma_flatten_one_element();
        assert(p.take(k) + p.skip(k) =~= p);
    }
}

/// Wrapping adds nothing and drops nothing: the lines, one after another, are
/// the text as it is drawn.
pub proof fn lemma_wrapping_keeps_every_character(t: Seq<char>, w: nat)
    ensures
        wrap_text(t, w).flatten() == drawn_text(t),
    decreases t.len(),
{
    lemma_first_newline(t, 0);
    match first_newline(t, 0) {
        None => lemma_line_keeps_every_character(cleaned(t), w),
        Some(j) => {
            lemma_line_keeps_every_character(cleaned(t.take(j)), w);
            lemma_wrapping_keeps_every_character(t.skip(j + 1), w);
            vstd::seq_lib::lemma_flatten_concat(
                wrap_line(cleaned(t.take(j)), w),
                wrap_text(t.skip(j + 1), w),
            );
        },
    }
}

proof fn lemma_expand_plain(p: Seq<char>)
    requires
        forall|i: int| 0 <= i < p.len() ==> p[i] != '\t',
    ensures
        expand_tabs(p) == p,
    decreases p.len(),
{
    if p.len() > 0 {
        lemma_expand_plain(p.drop_last());
        assert(p.drop_last().push(p.last()) =~= p);
    }
}

/// Text with no tab, carriage return or line break is drawn exactly as it
/// was written, so its wrapped lines put together give it back.
pub proof fn lemma_plain_text_is_drawn_as_written(t: Seq<char>, w: nat)
    requires
        forall|i: int| 0 <= i < t.len() ==> t[i] != '\t' && t[i] != '\r' && t[i] != '\n',
    ensures
        drawn_text(t) == t,
        wrap_text(t, w).flatten() == t,
{
    lemma_first_newline(t, 0);
    lemma_expand_plain(t);
    lemma_wrapping_keeps_every_character(t, w);
}


// Laws of the screen ////////////////
//////////////////////////////////////

/// Moving the selection never leaves it off the list: it lands on a row there
/// is, and there is no selection only when there are no rows.
pub proof fn lemma_the_selection_stays_on_a_row(selected: Option<usize>, offset: int, count: nat)
    ensures
        moved_selection(selected, offset, count) is None <==> count == 0,
        moved_selection(selected, offset, count) matches Some(i) ==> 0 <= i < count,
{
}

/// What is put on one line fits the width it was given, but for a zero width,
/// which still shows the ellipsis; and it holds no line break.
pub proof fn lemma_one_line_fits(t: Seq<char>, width: nat)
    ensures
        one_line_text(t, width).len() <= if width == 0 { 1 } else { width },
        forall|i: int|
            0 <= i < one_line_text(t, width).len() ==> #[trigger] one_line_text(t, width)[i]
                != '\n' && one_line_text(t, width)[i] != '\r',
{
    let f = flattened(t);
    let r = one_line_text(t, width);
    assert forall|i: int| 0 <= i < r.len() implies #[trigger] r[i] != '\n' && r[i] != '\r' by {
        if f.len() <= width {
            assert(r[i] == f[i]);
        } else if i < r.len() - 1 {
            assert(r[i] == f[i]);
        }
    }
}


/// Every tool call an agent makes gets a line in the transcript, whatever
/// text the same reply carries: as many lines as calls, each showing its call.
pub proof fn lemma_every_tool_call_is_shown(
    ml: MessageLines,
    content: Option<Seq<char>>,
    tool_calls: Seq<ToolCallView>,
    width: nat,
    directive: bool,
)
    requires
        shows(ml, MessageView::Assistant { content, tool_calls }, width, directive),
    ensures
        ml.calls@.len() == tool_calls.len(),
        forall|i: int|
            0 <= i < tool_calls.len() ==> #[trigger] ml.calls@[i]@ == call_line_text(
                tool_calls[i],
                width,
            ),
{
}

} // verus!
