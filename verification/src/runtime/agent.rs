//! An agent and the snapshot of it the ui reads: its configuration, where it
//! is in its lifecycle, and its conversation.

use vstd::prelude::*;
use vstd::string::*;

use crate::openrouter::types::{lemma_messages_view_push, messages_view, Message, MessageView, Usage};
use crate::runtime::agent_config::{
    AgentConfig, AgentConfigView, ConfigFiles, ConfigFilesError, ConfigFilesErrorView,
    ConfigFilesView,
};
use crate::text::{all_space, duplicate_strings, is_blank, strings_view};

verus! {

/// Where an agent is in its lifecycle. Agents are loaded from the project
/// directory already pointed at a directory, so they start out configuring.
#[derive(Debug, Clone, PartialEq)]
pub enum AgentState {
    /// Loaded but not started; its configuration files are on screen.
    Configuring,
    /// Waiting on a response from the model.
    Working,
    /// Started, waiting on the user's next message.
    Idle,
    Failed(String),
}

pub enum AgentStateView {
    Configuring,
    Working,
    Idle,
    Failed(Seq<char>),
}

impl View for AgentState {
    type V = AgentStateView;

    open spec fn view(&self) -> AgentStateView {
        match self {
            AgentState::Configuring => AgentStateView::Configuring,
            AgentState::Working => AgentStateView::Working,
            AgentState::Idle => AgentStateView::Idle,
            AgentState::Failed(e) => AgentStateView::Failed(e@),
        }
    }
}

pub open spec fn state_label(s: AgentStateView) -> Seq<char> {
    match s {
        AgentStateView::Configuring => "configuring"@,
        AgentStateView::Working => "working"@,
        AgentStateView::Idle => "idle"@,
        AgentStateView::Failed(e) => "failed: "@ + e,
    }
}

/// Started agents hold a conversation; only a configuring one does not.
pub open spec fn state_started(s: AgentStateView) -> bool {
    !(s is Configuring)
}

impl AgentState {
    pub fn label(&self) -> (r: String)
        ensures
            r@ == state_label(self@),
    {
        match self {
            AgentState::Configuring => "configuring".to_owned(),
            AgentState::Working => "working".to_owned(),
            AgentState::Idle => "idle".to_owned(),
            AgentState::Failed(err) => {
                let mut r = "failed: ".to_owned();
                r.append(err.as_str());
                r
            },
        }
    }

    /// True once the agent has been started and holds a conversation.
    pub fn started(&self) -> (r: bool)
        ensures
            r == state_started(self@),
    {
        match self {
            AgentState::Configuring => false,
            _ => true,
        }
    }

    pub fn duplicate(&self) -> (r: AgentState)
        ensures
            r@ == self@,
    {
        match self {
            AgentState::Configuring => AgentState::Configuring,
            AgentState::Working => AgentState::Working,
            AgentState::Idle => AgentState::Idle,
            AgentState::Failed(e) => AgentState::Failed(e.clone()),
        }
    }
}

/// A snapshot of everything the ui needs to render an agent.
#[derive(Debug, Clone)]
pub struct AgentDefinition {
    id: String,
    config: AgentConfig,
    state: AgentState,
    config_files: Option<ConfigFiles>,
    /// Why the agent's `config.json` could not be loaded, when it could not.
    /// Set instead of `config_files`, since without that file there is no
    /// configuration to speak of.
    config_error: Option<ConfigFilesError>,
    system_prompt: String,
    messages: Vec<Message>,
    /// Whether the first message came from `DIRECTIVE.md` rather than the user.
    opened_with_directive: bool,
    usage: Option<Usage>,
    /// The names of the tools its configuration came to, for the ui to list.
    tool_names: Vec<String>,
    /// What the user sent while a turn was in flight, waiting for the next one.
    queued: Vec<Message>,
}

pub struct AgentDefinitionView {
    pub id: Seq<char>,
    pub config: AgentConfigView,
    pub state: AgentStateView,
    pub config_files: Option<ConfigFilesView>,
    pub config_error: Option<ConfigFilesErrorView>,
    pub system_prompt: Seq<char>,
    pub messages: Seq<MessageView>,
    pub opened_with_directive: bool,
    pub usage: Option<Usage>,
    pub tool_names: Seq<Seq<char>>,
    pub queued: Seq<MessageView>,
}

impl View for AgentDefinition {
    type V = AgentDefinitionView;

    closed spec fn view(&self) -> AgentDefinitionView {
        AgentDefinitionView {
            id: self.id@,
            config: self.config@,
            state: self.state@,
            config_files: match self.config_files {
                Some(f) => Some(f@),
                None => None,
            },
            config_error: match self.config_error {
                Some(e) => Some(e@),
                None => None,
            },
            system_prompt: self.system_prompt@,
            messages: messages_view(self.messages@),
            opened_with_directive: self.opened_with_directive,
            usage: self.usage,
            tool_names: strings_view(self.tool_names@),
            queued: messages_view(self.queued@),
        }
    }
}

/// The messages sent to the model: the system prompt, unless it is blank,
/// followed by the conversation so far.
pub open spec fn request_messages_of(d: AgentDefinitionView) -> Seq<MessageView> {
    if all_space(d.system_prompt) {
        d.messages
    } else {
        seq![MessageView::System { content: d.system_prompt }] + d.messages
    }
}

/// The configuration is settled one way or the other: either the files were
/// read, or there is the reason they could not be, never both.
pub open spec fn config_settled(d: AgentDefinitionView) -> bool {
    d.config_files is Some <==> d.config_error is None
}

/// One change the runtime makes to an agent's definition, one for each of
/// the definition's mutators.
pub enum DefinitionEdit {
    SetConfig(AgentConfigView),
    SetState(AgentStateView),
    SetConfigFiles(ConfigFilesView, Seq<Seq<char>>),
    SetConfigError(ConfigFilesErrorView),
    QueueMessage(MessageView),
    TakeQueued,
    SetSystemPrompt(Seq<char>),
    SetUsage(Usage),
    PushMessage(MessageView),
    PushDirective(Seq<char>),
}

/// The definition `d` after the edit `e`.
pub open spec fn edited(d: AgentDefinitionView, e: DefinitionEdit) -> AgentDefinitionView {
    match e {
        DefinitionEdit::SetConfig(c) => AgentDefinitionView { config: c, ..d },
        DefinitionEdit::SetState(st) => AgentDefinitionView { state: st, ..d },
        DefinitionEdit::SetConfigFiles(f, names) => AgentDefinitionView {
            config_files: Some(f),
            config_error: None,
            tool_names: names,
            ..d
        },
        DefinitionEdit::SetConfigError(err) => AgentDefinitionView {
            config_files: None,
            config_error: Some(err),
            tool_names: Seq::empty(),
            ..d
        },
        DefinitionEdit::QueueMessage(m) => AgentDefinitionView { queued: d.queued.push(m), ..d },
        DefinitionEdit::TakeQueued => AgentDefinitionView {
            messages: d.messages + d.queued,
            queued: Seq::empty(),
            ..d
        },
        DefinitionEdit::SetSystemPrompt(p) => AgentDefinitionView { system_prompt: p, ..d },
        DefinitionEdit::SetUsage(u) => AgentDefinitionView { usage: Some(u), ..d },
        DefinitionEdit::PushMessage(m) => AgentDefinitionView { messages: d.messages.push(m), ..d },
        DefinitionEdit::PushDirective(t) => AgentDefinitionView {
            messages: d.messages.push(MessageView::User { content: t }),
            opened_with_directive: d.opened_with_directive || d.messages.len() == 0,
            ..d
        },
    }
}

/// The definition `d` after the edits `es`, in order.
pub open spec fn edited_all(d: AgentDefinitionView, es: Seq<DefinitionEdit>) -> AgentDefinitionView
    decreases es.len(),
{
    if es.len() == 0 {
        d
    } else {
        edited(edited_all(d, es.drop_last()), es.last())
    }
}

/// Whether the edit `e` records what reading the agent's files came to.
pub open spec fn settles(e: DefinitionEdit) -> bool {
    e is SetConfigFiles || e is SetConfigError
}

/// No edit changes which agent a definition is of.
pub proof fn lemma_edits_keep_the_id(d: AgentDefinitionView, es: Seq<DefinitionEdit>)
    ensures
        edited_all(d, es).id == d.id,
    decreases es.len(),
{
    if es.len() > 0 {
        lemma_edits_keep_the_id(d, es.drop_last());
    }
}

/// A definition never holds both the files it was read from and a reason
/// they could not be read; once either has been recorded, it holds exactly
/// one of them from then on.
pub proof fn lemma_files_or_error(d: AgentDefinitionView, es: Seq<DefinitionEdit>)
    requires
        !(d.config_files is Some && d.config_error is Some),
    ensures
        !(edited_all(d, es).config_files is Some && edited_all(d, es).config_error is Some),
        config_settled(d) ==> config_settled(edited_all(d, es)),
        (exists|k: int| 0 <= k < es.len() && settles(#[trigger] es[k])) ==> config_settled(
            edited_all(d, es),
        ),
    decreases es.len(),
{
    if es.len() > 0 {
        let f = es.drop_last();
        lemma_files_or_error(d, f);
        if exists|k: int| 0 <= k < es.len() && settles(#[trigger] es[k]) {
            let k = choose|k: int| 0 <= k < es.len() && settles(#[trigger] es[k]);
            if k < f.len() {
                assert(settles(f[k]));
            }
        }
    }
}

proof fn lemma_messages_only_grow(d: AgentDefinitionView, es: Seq<DefinitionEdit>)
    ensures
        edited_all(d, es).messages.len() >= d.messages.len(),
        d.messages.len() > 0 ==> edited_all(d, es).messages[0] == d.messages[0],
    decreases es.len(),
{
    if es.len() > 0 {
        lemma_messages_only_grow(d, es.drop_last());
    }
}

/// A conversation counts as opened by the directive exactly when a
/// directive was its first message, which then stays first.
pub proof fn lemma_opened_with_directive(d: AgentDefinitionView, es: Seq<DefinitionEdit>)
    requires
        d.messages.len() == 0,
        !d.opened_with_directive,
    ensures
        edited_all(d, es).opened_with_directive <==> exists|k: int|
            0 <= k < es.len() && #[trigger] es[k] is PushDirective && edited_all(
                d,
                es.take(k),
            ).messages.len() == 0,
        edited_all(d, es).opened_with_directive ==> edited_all(d, es).messages.len() > 0
            && exists|k: int|
            0 <= k < es.len() && #[trigger] es[k] is PushDirective && edited_all(d, es).messages[0]
                == (MessageView::User { content: es[k]->PushDirective_0 }),
    decreases es.len(),
{
    if es.len() > 0 {
        let f = es.drop_last();
        lemma_opened_with_directive(d, f);
        let g = edited_all(d, f);
        let e = es.last();
        let r = edited_all(d, es);
        assert(es.take(es.len() - 1) =~= f);
        assert forall|k: int| 0 <= k < f.len() implies #[trigger] es.take(k) == f.take(k) by {
            assert(es.take(k) =~= f.take(k));
        }
        lemma_messages_only_grow(g, seq![e]);
        assert(edited_all(g, seq![e]) == r) by {
            assert(seq![e].drop_last() =~= Seq::<DefinitionEdit>::empty());
            assert(edited_all(g, Seq::<DefinitionEdit>::empty()) == g);
            assert(seq![e].last() == e);
        }
        if g.opened_with_directive {
            let k = choose|k: int|
                0 <= k < f.len() && #[trigger] f[k] is PushDirective && g.messages[0]
                    == (MessageView::User { content: f[k]->PushDirective_0 });
            assert(es[k] == f[k]);
            let k2 = choose|k: int|
                0 <= k < f.len() && #[trigger] f[k] is PushDirective && edited_all(
                    d,
                    f.take(k),
                ).messages.len() == 0;
            assert(es[k2] == f[k2]);
        } else if e is PushDirective && g.messages.len() == 0 {
            assert(es[es.len() - 1] is PushDirective);
            assert(r.messages[0] == (MessageView::User { content: e->PushDirective_0 }));
        } else {
            assert forall|k: int|
                0 <= k < es.len() && #[trigger] es[k] is PushDirective implies edited_all(
                d,
                es.take(k),
            ).messages.len() != 0 by {
                if k < f.len() {
                    assert(f[k] == es[k]);
                }
            }
        }
    }
}

/// A copy of `messages`, message for message.
pub fn duplicate_messages(messages: &[Message]) -> (r: Vec<Message>)
    ensures
        messages_view(r@) == messages_view(messages@),
{
    let mut r: Vec<Message> = Vec::new();
    for i in 0..messages.len()
        invariant
            messages_view(r@) == messages_view(messages@).take(i as int),
    {
        let ghost before = r@;
        let m = messages[i].duplicate();
        proof {
            lemma_messages_view_push(before, m);
        }
        r.push(m);
        assert(messages_view(r@) =~= messages_view(messages@).take(i + 1));
    }
    assert(messages_view(messages@).take(messages@.len() as int) =~= messages_view(messages@));
    r
}

impl AgentDefinition {
    /// A definition with nothing read and nothing said yet.
    pub fn new(id: String, config: AgentConfig) -> (d: AgentDefinition)
        ensures
            d@.id == id@,
            d@.config == config@,
            d@.state == AgentStateView::Configuring,
            d@.config_files is None,
            d@.config_error is None,
            d@.system_prompt.len() == 0,
            d@.messages.len() == 0,
            !d@.opened_with_directive,
            d@.usage is None,
            d@.tool_names.len() == 0,
            d@.queued.len() == 0,
    {
        let d = AgentDefinition {
            id,
            config,
            state: AgentState::Configuring,
            config_files: None,
            config_error: None,
            system_prompt: String::new(),
            messages: Vec::new(),
            opened_with_directive: false,
            usage: None,
            tool_names: Vec::new(),
            queued: Vec::new(),
        };
        assert(d@.messages =~= Seq::<MessageView>::empty());
        assert(d@.queued =~= Seq::<MessageView>::empty());
        assert(d@.tool_names =~= Seq::<Seq<char>>::empty());
        d
    }

    pub fn id(&self) -> (r: String)
        ensures
            r@ == self@.id,
    {
        self.id.clone()
    }

    pub fn config(&self) -> (r: AgentConfig)
        ensures
            r@ == self@.config,
    {
        self.config.duplicate()
    }

    pub fn state(&self) -> (r: AgentState)
        ensures
            r@ == self@.state,
    {
        self.state.duplicate()
    }

    pub fn config_files(&self) -> (r: Option<ConfigFiles>)
        ensures
            match r {
                Some(f) => self@.config_files == Some(f@),
                None => self@.config_files is None,
            },
    {
        match &self.config_files {
            Some(f) => Some(f.duplicate()),
            None => None,
        }
    }

    /// Why the configuration could not be read. Present exactly when
    /// `config_files` is absent, once the agent has been loaded.
    pub fn config_error(&self) -> (r: Option<ConfigFilesError>)
        ensures
            match r {
                Some(e) => self@.config_error == Some(e@),
                None => self@.config_error is None,
            },
    {
        match &self.config_error {
            Some(e) => Some(e.duplicate()),
            None => None,
        }
    }

    pub fn system_prompt(&self) -> (r: String)
        ensures
            r@ == self@.system_prompt,
    {
        self.system_prompt.clone()
    }

    pub fn messages(&self) -> (r: &[Message])
        ensures
            messages_view(r@) == self@.messages,
    {
        self.messages.as_slice()
    }

    /// True when the conversation was opened by the agent's `DIRECTIVE.md`,
    /// which makes the first message a directive rather than the user's.
    pub fn opened_with_directive(&self) -> (r: bool)
        ensures
            r == self@.opened_with_directive,
    {
        self.opened_with_directive
    }

    pub fn usage(&self) -> (r: Option<Usage>)
        ensures
            r == self@.usage,
    {
        self.usage
    }

    pub fn set_config(&mut self, config: AgentConfig)
        ensures
            final(self)@ == edited(old(self)@, DefinitionEdit::SetConfig(config@)),
    {
        self.config = config;
    }

    pub fn set_state(&mut self, state: AgentState)
        ensures
            final(self)@ == edited(old(self)@, DefinitionEdit::SetState(state@)),
    {
        self.state = state;
    }

    /// Records the files the agent's configuration was read from, and the
    /// names of the tools they came to, which settles any earlier failure to
    /// read them.
    pub fn set_config_files(&mut self, config_files: ConfigFiles, tool_names: Vec<String>)
        ensures
            final(self)@ == edited(
                old(self)@,
                DefinitionEdit::SetConfigFiles(config_files@, strings_view(tool_names@)),
            ),
    {
        self.config_files = Some(config_files);
        self.config_error = None;
        self.tool_names = tool_names;
    }

    /// Records that the agent has no usable configuration, dropping whatever
    /// was read before it: the files on disk no longer say what it holds.
    pub fn set_config_error(&mut self, error: ConfigFilesError)
        ensures
            final(self)@ == edited(old(self)@, DefinitionEdit::SetConfigError(error@)),
    {
        self.config_files = None;
        self.config_error = Some(error);
        self.tool_names = Vec::new();
        assert(strings_view(self.tool_names@) =~= Seq::<Seq<char>>::empty());
    }

    /// The names of the tools the agent may call, empty until its
    /// configuration has been read.
    pub fn tool_names(&self) -> (r: Vec<String>)
        ensures
            strings_view(r@) == self@.tool_names,
    {
        duplicate_strings(self.tool_names.as_slice())
    }

    /// What the user sent while a turn was in flight, oldest first.
    pub fn queued_messages(&self) -> (r: &[Message])
        ensures
            messages_view(r@) == self@.queued,
    {
        self.queued.as_slice()
    }

    /// Holds `message` back for the next turn rather than adding it to the
    /// conversation the turn in flight is answering.
    pub fn queue_message(&mut self, message: Message)
        ensures
            final(self)@ == edited(old(self)@, DefinitionEdit::QueueMessage(message@)),
    {
        let ghost before = self.queued@;
        self.queued.push(message);
        proof {
            lemma_messages_view_push(before, message);
        }
    }

    /// Moves what was queued onto the end of the conversation, in the order
    /// it was sent.
    pub fn take_queued_messages(&mut self)
        ensures
            final(self)@ == edited(old(self)@, DefinitionEdit::TakeQueued),
    {
        let ghost m0 = self.messages@;
        let ghost q0 = self.queued@;
        let mut taken: Vec<Message> = Vec::new();
        core::mem::swap(&mut taken, &mut self.queued);
        self.messages.append(&mut taken);
        assert(messages_view(self.messages@) =~= messages_view(m0) + messages_view(q0));
        assert(messages_view(self.queued@) =~= Seq::<MessageView>::empty());
    }

    pub fn set_system_prompt(&mut self, system_prompt: String)
        ensures
            final(self)@ == edited(old(self)@, DefinitionEdit::SetSystemPrompt(system_prompt@)),
    {
        self.system_prompt = system_prompt;
    }

    pub fn set_usage(&mut self, usage: Usage)
        ensures
            final(self)@ == edited(old(self)@, DefinitionEdit::SetUsage(usage)),
    {
        self.usage = Some(usage);
    }

    pub fn push_message(&mut self, message: Message)
        ensures
            final(self)@ == edited(old(self)@, DefinitionEdit::PushMessage(message@)),
    {
        let ghost before = self.messages@;
        self.messages.push(message);
        assert(messages_view(self.messages@) =~= messages_view(before).push(message@));
    }

    /// Records that `DIRECTIVE.md` opened the conversation, as a user turn.
    /// It only counts as the opening when nothing was said before it, and a
    /// conversation the directive opened stays so.
    pub fn push_directive(&mut self, directive: &str)
        ensures
            final(self)@ == edited(old(self)@, DefinitionEdit::PushDirective(directive@)),
    {
        let ghost before = self.messages@;
        self.opened_with_directive = self.opened_with_directive || self.messages.len() == 0;
        let message = Message::user(directive);
        self.messages.push(message);
        assert(messages_view(self.messages@) =~= messages_view(before).push(
            MessageView::User { content: directive@ },
        ));
    }

    /// The messages sent to the model: the system prompt followed by the
    /// conversation so far. A blank system prompt is left out.
    pub fn request_messages(&self) -> (r: Vec<Message>)
        ensures
            messages_view(r@) == request_messages_of(self@),
    {
        let mut r: Vec<Message> = Vec::new();
        let blank = is_blank(self.system_prompt.as_str());
        if !blank {
            r.push(Message::system(self.system_prompt.as_str()));
        }
        let rest = duplicate_messages(self.messages.as_slice());
        let ghost head = r@;
        let mut rest = rest;
        r.append(&mut rest);
        assert(messages_view(r@) =~= messages_view(head) + messages_view(self.messages@));
        if !blank {
            assert(messages_view(head) =~= seq![MessageView::System { content: self@.system_prompt }]);
        } else {
            assert(messages_view(head) =~= Seq::<MessageView>::empty());
        }
        r
    }

    pub fn duplicate(&self) -> (r: AgentDefinition)
        ensures
            r@ == self@,
    {
        AgentDefinition {
            id: self.id.clone(),
            config: self.config.duplicate(),
            state: self.state.duplicate(),
            config_files: match &self.config_files {
                Some(f) => Some(f.duplicate()),
                None => None,
            },
            config_error: match &self.config_error {
                Some(e) => Some(e.duplicate()),
                None => None,
            },
            system_prompt: self.system_prompt.clone(),
            messages: duplicate_messages(self.messages.as_slice()),
            opened_with_directive: self.opened_with_directive,
            usage: self.usage,
            tool_names: duplicate_strings(self.tool_names.as_slice()),
            queued: duplicate_messages(self.queued.as_slice()),
        }
    }
}

/// An agent loaded from one of the project directory's children.
pub struct Agent {
    definition: AgentDefinition,
}

impl View for Agent {
    type V = AgentDefinitionView;

    closed spec fn view(&self) -> AgentDefinitionView {
        self.definition@
    }
}

impl Agent {
    /// `id` is the name of the directory the agent was loaded from, which is
    /// unique among the project directory's children.
    pub fn new(id: String, config: AgentConfig) -> (a: Agent)
        ensures
            a@.id == id@,
            a@.config == config@,
            a@.state == AgentStateView::Configuring,
            a@.config_files is None,
            a@.config_error is None,
            a@.system_prompt.len() == 0,
            a@.messages.len() == 0,
            !a@.opened_with_directive,
            a@.usage is None,
            a@.tool_names.len() == 0,
            a@.queued.len() == 0,
    {
        Agent { definition: AgentDefinition::new(id, config) }
    }

    /// A snapshot of the agent as it is now; later changes to the agent do
    /// not reach it.
    pub fn agent_definition(&self) -> (r: AgentDefinition)
        ensures
            r@ == self@,
    {
        self.definition.duplicate()
    }

    pub fn id(&self) -> (r: String)
        ensures
            r@ == self@.id,
    {
        self.definition.id()
    }

    /// The name the agent is listed under.
    pub fn name(&self) -> (r: String)
        ensures
            r@ == self@.config.name,
    {
        self.definition.config.name()
    }

    /// The directory the agent was loaded from.
    pub fn dir(&self) -> (r: String)
        ensures
            r@ == self@.config.dir,
    {
        self.definition.config.dir()
    }

    /// Whether the agent has been started.
    pub fn started(&self) -> (r: bool)
        ensures
            r == state_started(self@.state),
    {
        self.definition.state.started()
    }

    pub fn definition_mut(&mut self) -> (r: &mut AgentDefinition)
        ensures
            (*r)@ == old(self)@,
            final(self)@ == (*final(r))@,
    {
        &mut self.definition
    }
}


/// Every request carries the whole conversation: the system prompt first,
/// unless it is blank, then each message said so far, in the order it was
/// said.
pub proof fn lemma_a_request_carries_the_whole_conversation(d: AgentDefinitionView)
    ensures
        all_space(d.system_prompt) ==> request_messages_of(d).len() == d.messages.len(),
        !all_space(d.system_prompt) ==> {
            &&& request_messages_of(d).len() == d.messages.len() + 1
            &&& request_messages_of(d)[0] == (MessageView::System { content: d.system_prompt })
        },
        all_space(d.system_prompt) ==> forall|i: int|
            0 <= i < d.messages.len() ==> #[trigger] request_messages_of(d)[i] == d.messages[i],
        !all_space(d.system_prompt) ==> forall|i: int|
            0 <= i < d.messages.len() ==> request_messages_of(d)[i + 1] == #[trigger] d.messages[i],
{
}

/// A message added to the conversation goes out with the next request, after
/// everything the request already held.
pub proof fn lemma_a_new_message_joins_the_next_request(d: AgentDefinitionView, m: MessageView)
    ensures
        request_messages_of(edited(d, DefinitionEdit::PushMessage(m))) == request_messages_of(d).push(
            m,
        ),
{
    let e = edited(d, DefinitionEdit::PushMessage(m));
    if all_space(d.system_prompt) {
        assert(request_messages_of(e) =~= request_messages_of(d).push(m));
    } else {
        assert(request_messages_of(e) =~= request_messages_of(d).push(m));
    }
}

} // verus!
