//! The runtime's own bookkeeping: the agents it has loaded from the project
//! directory, how a reload changes that list, and the errors it reports.
//! Reading directories and files, and the lock the list sits behind, are left
//! to the caller; everything decided about the list is here.

use vstd::prelude::*;
use vstd::multiset::Multiset;
use vstd::string::*;

use crate::config::Config;
use crate::openrouter::client::{open_router_error_text, OpenRouterError};
use crate::runtime::agent::{config_settled, state_started, Agent, AgentDefinition, AgentDefinitionView, AgentStateView};
use crate::runtime::agent_config::{
    cleared_config, config_files_error_text, load_outcome, AgentConfig, AgentConfigView,
    ConfigFiles, ConfigFilesError, ConfigFilesErrorView, ConfigFilesView, DirScan, ModelView,
    AGENT_CONFIG_FILE_NAME,
};
use crate::runtime::tool_registry::{
    agent_tool_names, block_for, may_resolve, resolve_plan, tool_settings_error_text, AgentTools,
    ToolRegistry, ToolSettingsErrorView,
};
use crate::text::{
    chars_of, insertion_index, lemma_insert_keeps_sorted, sort_strings, sorted_texts, str_eq,
    string_from_chars, strings_view,
};
use crate::tools::tool::Tool;

verus! {

// Errors ////////////////////////////
//////////////////////////////////////

/// Why the runtime could not do what it was asked.
#[derive(Debug, Clone)]
pub enum RuntimeError {
    /// No agent with the id given.
    UnknownAgent(String),
    /// The agent has started, so its configuration is settled.
    AgentAlreadyStarted(String),
    /// A required file is not in the agent's directory.
    ConfigFileMissing(String),
    /// A file is there but cannot be used: its name, and why.
    ConfigFileUnreadable { name: String, error: String },
    OpenRouter(OpenRouterError),
}

pub enum RuntimeErrorView {
    UnknownAgent(Seq<char>),
    AgentAlreadyStarted(Seq<char>),
    ConfigFileMissing(Seq<char>),
    ConfigFileUnreadable { name: Seq<char>, error: Seq<char> },
    OpenRouter(OpenRouterError),
}

impl View for RuntimeError {
    type V = RuntimeErrorView;

    open spec fn view(&self) -> RuntimeErrorView {
        match self {
            RuntimeError::UnknownAgent(id) => RuntimeErrorView::UnknownAgent(id@),
            RuntimeError::AgentAlreadyStarted(id) => RuntimeErrorView::AgentAlreadyStarted(id@),
            RuntimeError::ConfigFileMissing(name) => RuntimeErrorView::ConfigFileMissing(name@),
            RuntimeError::ConfigFileUnreadable { name, error } =>
                RuntimeErrorView::ConfigFileUnreadable { name: name@, error: error@ },
            RuntimeError::OpenRouter(e) => RuntimeErrorView::OpenRouter(*e),
        }
    }
}

/// What each runtime error says.
pub open spec fn runtime_error_text(e: RuntimeErrorView) -> Seq<char> {
    match e {
        RuntimeErrorView::UnknownAgent(id) => "no agent with id `"@ + id + "`"@,
        RuntimeErrorView::AgentAlreadyStarted(id) => "`"@ + id
            + "` has already started, so its configuration is settled"@,
        RuntimeErrorView::ConfigFileMissing(name) => "the agent's directory is missing `"@ + name
            + "`"@,
        RuntimeErrorView::ConfigFileUnreadable { name, error } => "`"@ + name
            + "` could not be read: "@ + error,
        RuntimeErrorView::OpenRouter(e) => "openrouter error: "@ + open_router_error_text(e),
    }
}

/// The runtime error a failure to read an agent's configuration is reported
/// as. `config.json` is required, so every failure keeps one of two shapes:
/// the file is missing, or it is there and cannot be used.
pub open spec fn config_failure(e: ConfigFilesErrorView) -> RuntimeErrorView {
    match e {
        ConfigFilesErrorView::Missing { name, .. } => RuntimeErrorView::ConfigFileMissing(name),
        ConfigFilesErrorView::Unreadable { name, error, .. } =>
            RuntimeErrorView::ConfigFileUnreadable { name, error },
        _ => RuntimeErrorView::ConfigFileUnreadable {
            name: AGENT_CONFIG_FILE_NAME@,
            error: config_files_error_text(e),
        },
    }
}

impl RuntimeError {
    pub fn message(&self) -> (r: String)
        ensures
            r@ == runtime_error_text(self@),
    {
        match self {
            RuntimeError::UnknownAgent(id) => {
                let mut r = "no agent with id `".to_owned();
                r.append(id.as_str());
                r.append("`");
                r
            },
            RuntimeError::AgentAlreadyStarted(id) => {
                let mut r = "`".to_owned();
                r.append(id.as_str());
                r.append("` has already started, so its configuration is settled");
                r
            },
            RuntimeError::ConfigFileMissing(name) => {
                let mut r = "the agent's directory is missing `".to_owned();
                r.append(name.as_str());
                r.append("`");
                r
            },
            RuntimeError::ConfigFileUnreadable { name, error } => {
                let mut r = "`".to_owned();
                r.append(name.as_str());
                r.append("` could not be read: ");
                r.append(error.as_str());
                r
            },
            RuntimeError::OpenRouter(e) => {
                let mut r = "openrouter error: ".to_owned();
                let m = e.message();
                r.append(m.as_str());
                r
            },
        }
    }

    /// Reports a failure to read an agent's configuration.
    pub fn from_config_files_error(err: ConfigFilesError) -> (r: RuntimeError)
        ensures
            r@ == config_failure(err@),
    {
        match err {
            ConfigFilesError::Missing { name, .. } => RuntimeError::ConfigFileMissing(name),
            ConfigFilesError::Unreadable { name, error, .. } => RuntimeError::ConfigFileUnreadable {
                name,
                error,
            },
            _ => {
                let error = err.message();
                RuntimeError::ConfigFileUnreadable {
                    name: AGENT_CONFIG_FILE_NAME.to_owned(),
                    error,
                }
            },
        }
    }
}

// Settings //////////////////////////
//////////////////////////////////////

/// Where the runtime works, and the project's own settings.
#[derive(Clone)]
pub struct RuntimeConfig {
    project_dir: String,
    config: Config,
}

impl RuntimeConfig {
    pub closed spec fn spec_project_dir(&self) -> Seq<char> {
        self.project_dir@
    }

    pub closed spec fn spec_config(&self) -> Config {
        self.config
    }

    pub fn new(project_dir: String, config: Config) -> (r: RuntimeConfig)
        ensures
            r.spec_project_dir() == project_dir@,
            r.spec_config() == config,
    {
        RuntimeConfig { project_dir, config }
    }

    pub fn project_dir(&self) -> (r: String)
        ensures
            r@ == self.spec_project_dir(),
    {
        self.project_dir.clone()
    }

    /// The contents of the project's config.json.
    pub fn config(&self) -> (r: Config)
        ensures
            r.openrouter_api_key@ == self.spec_config().openrouter_api_key@,
            r.openrouter_base_url == self.spec_config().openrouter_base_url,
            r.http_referer == self.spec_config().http_referer,
            r.x_openrouter_title == self.spec_config().x_openrouter_title,
    {
        self.config.duplicate()
    }
}

// Directories ///////////////////////
//////////////////////////////////////

/// The position just after the last '/' in `p` before `end`, or 0.
pub open spec fn name_start(p: Seq<char>, end: int) -> int
    decreases end,
{
    if end <= 0 {
        0
    } else if p[end - 1] == '/' {
        end
    } else {
        name_start(p, end - 1)
    }
}

/// The end of `p` without the separators it ends in.
pub open spec fn name_end(p: Seq<char>, end: int) -> int
    decreases end,
{
    if end > 0 && p[end - 1] == '/' {
        name_end(p, end - 1)
    } else {
        end
    }
}

/// The last component of the path `p`: what follows its last separator,
/// trailing separators aside. An agent's directory is named this way, and the
/// agent after it.
pub open spec fn last_component(p: Seq<char>) -> Seq<char> {
    let end = name_end(p, p.len() as int);
    p.subrange(name_start(p, end), end)
}

proof fn lemma_name_bounds(p: Seq<char>, end: int)
    requires
        0 <= end <= p.len(),
    ensures
        0 <= name_end(p, end) <= end,
        0 <= name_start(p, end) <= end,
    decreases end,
{
    if end > 0 {
        lemma_name_bounds(p, end - 1);
    }
}

/// The name of the directory at `path`.
pub fn dir_name(path: &str) -> (r: String)
    ensures
        r@ == last_component(path@),
{
    let v = chars_of(path);
    let mut end: usize = v.len();
    while end > 0 && v[end - 1] == '/'
        invariant
            0 <= end <= v@.len(),
            v@ == path@,
            name_end(v@, end as int) == name_end(v@, v@.len() as int),
        decreases end,
    {
        end -= 1;
    }
    let mut start: usize = end;
    while start > 0 && v[start - 1] != '/'
        invariant
            0 <= start <= end <= v@.len(),
            v@ == path@,
            name_start(v@, start as int) == name_start(v@, end as int),
        decreases start,
    {
        start -= 1;
    }
    string_from_chars(v.as_slice(), start, end)
}

/// Hidden directories and `target` never hold an agent.
pub open spec fn holds_agent(name: Seq<char>) -> bool {
    !(name.len() > 0 && name[0] == '.') && name != "target"@
}

pub fn is_agent_dir_name(name: &str) -> (r: bool)
    ensures
        r == holds_agent(name@),
{
    let v = chars_of(name);
    if v.len() > 0 && v[0] == '.' {
        return false;
    }
    !str_eq(name, "target")
}

/// The directories, of those given, that an agent may live in.
pub open spec fn agent_dir_paths(paths: Seq<Seq<char>>) -> Seq<Seq<char>>
    decreases paths.len(),
{
    if paths.len() == 0 {
        paths
    } else {
        let kept = agent_dir_paths(paths.drop_last());
        if holds_agent(last_component(paths.last())) {
            kept.push(paths.last())
        } else {
            kept
        }
    }
}

/// The directories an agent is loaded from, out of the directories found in
/// the project directory, in order.
pub fn agent_dir_list(paths: Vec<String>) -> (r: Vec<String>)
    ensures
        sorted_texts(strings_view(r@)),
        strings_view(r@).to_multiset() == agent_dir_paths(strings_view(paths@)).to_multiset(),
{
    let ghost ps = strings_view(paths@);
    let mut kept: Vec<String> = Vec::new();
    let mut i: usize = 0;
    while i < paths.len()
        invariant
            0 <= i <= paths@.len(),
            ps == strings_view(paths@),
            strings_view(kept@) == agent_dir_paths(ps.take(i as int)),
        decreases paths.len() - i,
    {
        assert(ps.take(i + 1).drop_last() =~= ps.take(i as int));
        let name = dir_name(paths[i].as_str());
        if is_agent_dir_name(name.as_str()) {
            let ghost before = kept@;
            kept.push(paths[i].clone());
            assert(strings_view(kept@) =~= strings_view(before).push(ps[i as int]));
        }
        i += 1;
    }
    assert(ps.take(paths@.len() as int) =~= ps);
    sort_strings(kept)
}

/// Whether `s` is among `v`.
pub fn contains_text(v: &[String], s: &str) -> (r: bool)
    ensures
        r == strings_view(v@).contains(s@),
{
    let ghost vs = strings_view(v@);
    let mut i: usize = 0;
    while i < v.len()
        invariant
            0 <= i <= v@.len(),
            vs == strings_view(v@),
            forall|j: int| 0 <= j < i ==> vs[j] != s@,
        decreases v.len() - i,
    {
        if str_eq(v[i].as_str(), s) {
            assert(vs[i as int] == s@);
            return true;
        }
        i += 1;
    }
    false
}


// Agents ////////////////////////////
//////////////////////////////////////

/// What reading an agent's directory came to: its files and the tools they
/// resolve to, or why they could not be used.
pub type Loaded<T> = Result<(ConfigFiles, AgentTools<T>), ConfigFilesError>;

pub type LoadedView = Result<(ConfigFilesView, Seq<Seq<char>>), ConfigFilesErrorView>;

pub open spec fn loaded_view<T>(l: Loaded<T>) -> LoadedView {
    match l {
        Ok((f, t)) => Ok((f@, agent_tool_names(t.entries()))),
        Err(e) => Err(e@),
    }
}

pub open spec fn loaded_views<T>(ls: Seq<(String, Loaded<T>)>) -> Seq<(Seq<char>, LoadedView)> {
    ls.map_values(|x: (String, Loaded<T>)| (x.0@, loaded_view(x.1)))
}

pub open spec fn agents_view(s: Seq<Agent>) -> Seq<AgentDefinitionView> {
    s.map_values(|a: Agent| a@)
}

pub open spec fn definitions_view(s: Seq<AgentDefinition>) -> Seq<AgentDefinitionView> {
    s.map_values(|a: AgentDefinition| a@)
}

/// The names agents are listed under, in list order.
pub open spec fn agent_names(s: Seq<AgentDefinitionView>) -> Seq<Seq<char>> {
    s.map_values(|d: AgentDefinitionView| d.config.name)
}

/// The first agent from `i` on with the id `id`.
pub open spec fn find_id(s: Seq<AgentDefinitionView>, id: Seq<char>, i: int) -> Option<int>
    decreases s.len() - i,
{
    if i < 0 || i >= s.len() {
        None
    } else if s[i].id == id {
        Some(i)
    } else {
        find_id(s, id, i + 1)
    }
}

/// The first agent from `i` on loaded from the directory `dir`.
pub open spec fn find_dir(s: Seq<AgentDefinitionView>, dir: Seq<char>, i: int) -> Option<int>
    decreases s.len() - i,
{
    if i < 0 || i >= s.len() {
        None
    } else if s[i].config.dir == dir {
        Some(i)
    } else {
        find_dir(s, dir, i + 1)
    }
}

/// The agents a reload keeps, in order: those that have started, whose
/// sessions are worth keeping whatever happened on disk, and those whose
/// directory is still there.
pub open spec fn kept(s: Seq<AgentDefinitionView>, dirs: Seq<Seq<char>>) -> Seq<AgentDefinitionView>
    decreases s.len(),
{
    if s.len() == 0 {
        s
    } else {
        let k = kept(s.drop_last(), dirs);
        let d = s.last();
        if state_started(d.state) || dirs.contains(d.config.dir) {
            k.push(d)
        } else {
            k
        }
    }
}

/// Whether a started agent was loaded from `dir`.
pub open spec fn started_in(s: Seq<AgentDefinitionView>, dir: Seq<char>) -> bool {
    exists|i: int| 0 <= i < s.len() && state_started(#[trigger] s[i].state) && s[i].config.dir == dir
}

/// The directories whose files a reload reads, in order: all of them but
/// those a started agent was loaded from. A started agent read its files once
/// and keeps what it read.
pub open spec fn to_read(dirs: Seq<Seq<char>>, s: Seq<AgentDefinitionView>) -> Seq<Seq<char>>
    decreases dirs.len(),
{
    if dirs.len() == 0 {
        dirs
    } else {
        let r = to_read(dirs.drop_last(), s);
        if started_in(s, dirs.last()) {
            r
        } else {
            r.push(dirs.last())
        }
    }
}

/// An agent just found in `dir`: named after it, with nothing read yet.
pub open spec fn fresh_agent(dir: Seq<char>) -> AgentDefinitionView {
    AgentDefinitionView {
        id: last_component(dir),
        config: AgentConfigView {
            name: last_component(dir),
            model: ModelView { author: Seq::empty(), slug: Seq::empty() },
            dir,
            max_iterations: 0,
        },
        state: AgentStateView::Configuring,
        config_files: None,
        config_error: None,
        system_prompt: Seq::empty(),
        messages: Seq::empty(),
        opened_with_directive: false,
        usage: None,
        tool_names: Seq::empty(),
        queued: Seq::empty(),
    }
}

/// `d` with what reading its files came to: the model, the bound and the
/// tools they name, or the reason they could not be used and none of the
/// settings that came out of them.
pub open spec fn configured(d: AgentDefinitionView, l: LoadedView) -> AgentDefinitionView {
    match l {
        Ok((files, names)) => AgentDefinitionView {
            config: AgentConfigView {
                model: files.model,
                max_iterations: files.settings.agent_max_iterations,
                ..d.config
            },
            config_files: Some(files),
            config_error: None,
            tool_names: names,
            ..d
        },
        Err(e) => AgentDefinitionView {
            config: cleared_config(d.config),
            config_files: None,
            config_error: Some(e),
            tool_names: Seq::empty(),
            ..d
        },
    }
}

/// The list after one directory's files were read: the agent loaded from it
/// takes what was read unless it has started since, and a directory no agent
/// was loaded from gets a new one at the end.
pub open spec fn apply_one(s: Seq<AgentDefinitionView>, dir: Seq<char>, l: LoadedView) -> Seq<
    AgentDefinitionView,
> {
    match find_dir(s, dir, 0) {
        Some(i) => if state_started(s[i].state) {
            s
        } else {
            s.update(i, configured(s[i], l))
        },
        None => s.push(configured(fresh_agent(dir), l)),
    }
}

pub open spec fn apply_all(s: Seq<AgentDefinitionView>, ls: Seq<(Seq<char>, LoadedView)>) -> Seq<
    AgentDefinitionView,
>
    decreases ls.len(),
{
    if ls.len() == 0 {
        s
    } else {
        apply_one(apply_all(s, ls.drop_last()), ls.last().0, ls.last().1)
    }
}

/// Sets `a` up with what reading its files came to.
fn configure<T>(a: &mut Agent, loaded: Loaded<T>)
    ensures
        final(a)@ == configured(old(a)@, loaded_view(loaded)),
{
    let d = a.definition_mut();
    match loaded {
        Ok((files, tools)) => {
            let config = d.config().set_from_config_files(&files);
            d.set_config(config);
            let names = tools.names();
            d.set_config_files(files, names);
        },
        Err(e) => {
            let config = d.config().clear_settings();
            d.set_config(config);
            d.set_config_error(e);
        },
    }
}

/// `agents` in order of name, stably.
fn sort_agents_by_name(agents: Vec<Agent>) -> (r: Vec<Agent>)
    ensures
        sorted_texts(agent_names(agents_view(r@))),
        agents_view(r@).to_multiset() == agents_view(agents@).to_multiset(),
{
    let ghost all = agents_view(agents@);
    let mut rest = agents;
    let mut out: Vec<Agent> = Vec::new();
    let mut keys: Vec<String> = Vec::new();
    proof {
        broadcast use vstd::multiset::group_multiset_axioms;

        assert(agents_view(out@) =~= Seq::<AgentDefinitionView>::empty());
        vstd::seq_lib::to_multiset_len(agents_view(out@));
        vstd::multiset::lemma_multiset_empty_len(agents_view(out@).to_multiset());
        assert(Multiset::<AgentDefinitionView>::empty().add(all.to_multiset()) =~= all.to_multiset());
        assert(strings_view(keys@) =~= agent_names(agents_view(out@)));
    }
    while rest.len() > 0
        invariant
            strings_view(keys@) == agent_names(agents_view(out@)),
            sorted_texts(agent_names(agents_view(out@))),
            agents_view(out@).to_multiset().add(agents_view(rest@).to_multiset())
                == all.to_multiset(),
        decreases rest.len(),
    {
        let ghost r0 = agents_view(rest@);
        let ghost o0 = agents_view(out@);
        let ghost k0 = strings_view(keys@);
        let a = rest.remove(0);
        assert(agents_view(rest@) =~= r0.remove(0));
        let name = a.name();
        let k = insertion_index(&keys, name.as_str());
        proof {
            lemma_insert_keeps_sorted(k0, name@, k as int);
        }
        let ghost nm = name@;
        keys.insert(k, name);
        out.insert(k, a);
        assert(agents_view(out@) =~= o0.insert(k as int, r0[0]));
        assert(strings_view(keys@) =~= k0.insert(k as int, nm));
        assert(agent_names(o0.insert(k as int, r0[0])) =~= agent_names(o0).insert(k as int, nm));
        assert(strings_view(keys@) =~= agent_names(agents_view(out@)));
        proof {
            broadcast use vstd::multiset::group_multiset_axioms;

            vstd::seq_lib::to_multiset_insert(o0, k as int, r0[0]);
            vstd::seq_lib::to_multiset_remove(r0, 0);
            vstd::seq_lib::to_multiset_contains(r0, r0[0]);
            assert(r0.contains(r0[0]));
            assert(o0.to_multiset().insert(r0[0]).add(r0.to_multiset().remove(r0[0]))
                =~= o0.to_multiset().add(r0.to_multiset()));
        }
    }
    proof {
        broadcast use vstd::multiset::group_multiset_axioms;

        assert(agents_view(rest@) =~= Seq::<AgentDefinitionView>::empty());
        vstd::seq_lib::to_multiset_len(agents_view(rest@));
        vstd::multiset::lemma_multiset_empty_len(agents_view(rest@).to_multiset());
        assert(agents_view(out@).to_multiset().add(Multiset::empty()) =~= agents_view(
            out@,
        ).to_multiset());
    }
    out
}

/// The agents the runtime has loaded, as the ui lists them.
pub struct RuntimeInner {
    agents: Vec<Agent>,
}

impl View for RuntimeInner {
    type V = Seq<AgentDefinitionView>;

    closed spec fn view(&self) -> Seq<AgentDefinitionView> {
        agents_view(self.agents@)
    }
}

impl RuntimeInner {
    pub fn new() -> (r: RuntimeInner)
        ensures
            r@ == Seq::<AgentDefinitionView>::empty(),
    {
        let r = RuntimeInner { agents: Vec::new() };
        assert(r@ =~= Seq::<AgentDefinitionView>::empty());
        r
    }

    pub fn agents(&self) -> (r: &[Agent])
        ensures
            agents_view(r@) == self@,
    {
        self.agents.as_slice()
    }

    /// Where the agent with the id `id` is in the list.
    pub fn position(&self, id: &str) -> (r: Option<usize>)
        ensures
            match r {
                Some(i) => find_id(self@, id@, 0) == Some(i as int) && i < self@.len(),
                None => find_id(self@, id@, 0) is None,
            },
    {
        let ghost s = self@;
        let mut i: usize = 0;
        while i < self.agents.len()
            invariant
                0 <= i <= self.agents@.len(),
                s == agents_view(self.agents@),
                find_id(s, id@, 0) == find_id(s, id@, i as int),
            decreases self.agents.len() - i,
        {
            let aid = self.agents[i].id();
            if str_eq(aid.as_str(), id) {
                return Some(i);
            }
            i += 1;
        }
        None
    }

    /// Where the agent loaded from `dir` is in the list.
    fn position_of_dir(&self, dir: &str) -> (r: Option<usize>)
        ensures
            match r {
                Some(i) => find_dir(self@, dir@, 0) == Some(i as int) && i < self@.len(),
                None => find_dir(self@, dir@, 0) is None,
            },
    {
        let ghost s = self@;
        let mut i: usize = 0;
        while i < self.agents.len()
            invariant
                0 <= i <= self.agents@.len(),
                s == agents_view(self.agents@),
                find_dir(s, dir@, 0) == find_dir(s, dir@, i as int),
            decreases self.agents.len() - i,
        {
            let adir = self.agents[i].dir();
            if str_eq(adir.as_str(), dir) {
                return Some(i);
            }
            i += 1;
        }
        None
    }

    /// The agent with the id `id`.
    pub fn agent(&self, id: &str) -> (r: Result<&Agent, RuntimeError>)
        ensures
            match find_id(self@, id@, 0) {
                Some(i) => r matches Ok(a) && a@ == self@[i],
                None => r matches Err(e) && e@ == RuntimeErrorView::UnknownAgent(id@),
            },
    {
        match self.position(id) {
            Some(i) => Ok(&self.agents[i]),
            None => Err(RuntimeError::UnknownAgent(id.to_owned())),
        }
    }

    /// A snapshot of every agent, in list order.
    pub fn list_agents(&self) -> (r: Vec<AgentDefinition>)
        ensures
            definitions_view(r@) == self@,
    {
        let mut r: Vec<AgentDefinition> = Vec::new();
        for i in 0..self.agents.len()
            invariant
                definitions_view(r@) == agents_view(self.agents@).take(i as int),
        {
            let ghost before = r@;
            let d = self.agents[i].agent_definition();
            r.push(d);
            assert(definitions_view(r@) =~= definitions_view(before).push(d@));
            assert(definitions_view(r@) =~= agents_view(self.agents@).take(i + 1));
        }
        assert(agents_view(self.agents@).take(self.agents@.len() as int) =~= agents_view(
            self.agents@,
        ));
        r
    }

    /// A snapshot of the agent with the id `id`, if there is one.
    pub fn agent_definition(&self, id: &str) -> (r: Option<AgentDefinition>)
        ensures
            match find_id(self@, id@, 0) {
                Some(i) => r matches Some(d) && d@ == self@[i],
                None => r is None,
            },
    {
        match self.position(id) {
            Some(i) => Some(self.agents[i].agent_definition()),
            None => None,
        }
    }

    /// Puts `definition` in place of what the agent with the id `id` held.
    pub fn set_definition(&mut self, id: &str, definition: AgentDefinition) -> (r: Result<
        (),
        RuntimeError,
    >)
        ensures
            match find_id(old(self)@, id@, 0) {
                Some(i) => r is Ok && final(self)@ == old(self)@.update(i, definition@),
                None => r matches Err(e) && e@ == RuntimeErrorView::UnknownAgent(id@)
                    && final(self)@ == old(self)@,
            },
    {
        match self.position(id) {
            Some(i) => {
                let ghost s0 = self@;
                let mut a = self.agents.remove(i);
                *a.definition_mut() = definition;
                self.agents.insert(i, a);
                assert(self@ =~= s0.update(i as int, definition@));
                Ok(())
            },
            None => Err(RuntimeError::UnknownAgent(id.to_owned())),
        }
    }

    /// Drops the agents a reload no longer finds a directory for, keeping
    /// every one that has started.
    pub fn retain_present(&mut self, dirs: &[String])
        ensures
            final(self)@ == kept(old(self)@, strings_view(dirs@)),
    {
        let ghost o = self@;
        let ghost ds = strings_view(dirs@);
        let mut rest: Vec<Agent> = Vec::new();
        core::mem::swap(&mut rest, &mut self.agents);
        let ghost all = rest@;
        let total = rest.len();
        assert(all.len() == total);
        let mut i: usize = 0;
        assert(agents_view(self.agents@) =~= kept(o.take(0), ds));
        while rest.len() > 0
            invariant
                0 <= i <= o.len(),
                all.len() <= usize::MAX,
                o == agents_view(all),
                ds == strings_view(dirs@),
                rest@ == all.skip(i as int),
                agents_view(self.agents@) == kept(o.take(i as int), ds),
            decreases rest.len(),
        {
            let ghost before = self.agents@;
            let a = rest.remove(0);
            assert(all.skip(i as int)[0] == all[i as int]);
            assert(all.skip(i as int).remove(0) =~= all.skip(i + 1));
            assert(o.take(i + 1).drop_last() =~= o.take(i as int));
            assert(o.take(i + 1).last() == a@);
            let keep = a.started() || {
                let dir = a.dir();
                contains_text(dirs, dir.as_str())
            };
            if keep {
                self.agents.push(a);
                assert(agents_view(self.agents@) =~= agents_view(before).push(a@));
            }
            i += 1;
        }
        assert(o.take(o.len() as int) =~= o);
    }

    /// Whether a started agent was loaded from `dir`.
    fn started_in_dir(&self, dir: &str) -> (r: bool)
        ensures
            r == started_in(self@, dir@),
    {
        let ghost s = self@;
        let mut i: usize = 0;
        while i < self.agents.len()
            invariant
                0 <= i <= self.agents@.len(),
                s == agents_view(self.agents@),
                forall|j: int|
                    0 <= j < i ==> !(state_started(#[trigger] s[j].state) && s[j].config.dir
                        == dir@),
            decreases self.agents.len() - i,
        {
            if self.agents[i].started() {
                let adir = self.agents[i].dir();
                if str_eq(adir.as_str(), dir) {
                    assert(state_started(s[i as int].state) && s[i as int].config.dir == dir@);
                    return true;
                }
            }
            i += 1;
        }
        false
    }

    /// The directories, of `dirs`, whose files a reload reads.
    pub fn dirs_to_read(&self, dirs: &[String]) -> (r: Vec<String>)
        ensures
            strings_view(r@) == to_read(strings_view(dirs@), self@),
    {
        let ghost ds = strings_view(dirs@);
        let mut r: Vec<String> = Vec::new();
        for i in 0..dirs.len()
            invariant
                ds == strings_view(dirs@),
                strings_view(r@) == to_read(ds.take(i as int), self@),
        {
            assert(ds.take(i + 1).drop_last() =~= ds.take(i as int));
            if !self.started_in_dir(dirs[i].as_str()) {
                let ghost before = r@;
                r.push(dirs[i].clone());
                assert(strings_view(r@) =~= strings_view(before).push(ds[i as int]));
            }
        }
        assert(ds.take(dirs@.len() as int) =~= ds);
        r
    }

    /// Brings in what reading each directory's files came to, then lists the
    /// agents by name.
    pub fn apply_loaded<T>(&mut self, loaded: Vec<(String, Loaded<T>)>)
        ensures
            sorted_texts(agent_names(final(self)@)),
            final(self)@.to_multiset() == apply_all(old(self)@, loaded_views(loaded@)).to_multiset(),
    {
        let ghost o = self@;
        let ghost ls = loaded_views(loaded@);
        let ghost all = loaded@;
        let mut rest = loaded;
        let total = rest.len();
        assert(all.len() == total);
        let mut i: usize = 0;
        while rest.len() > 0
            invariant
                0 <= i <= ls.len(),
                all.len() <= usize::MAX,
                ls == loaded_views(all),
                rest@ == all.skip(i as int),
                self@ == apply_all(o, ls.take(i as int)),
            decreases rest.len(),
        {
            let ghost s0 = self@;
            let (dir, res) = rest.remove(0);
            assert(all.skip(i as int)[0] == all[i as int]);
            assert(all.skip(i as int).remove(0) =~= all.skip(i + 1));
            assert(ls.take(i + 1).drop_last() =~= ls.take(i as int));
            assert(ls.take(i + 1).last() == (dir@, loaded_view(res)));
            match self.position_of_dir(dir.as_str()) {
                Some(k) => {
                    if !self.agents[k].started() {
                        let mut a = self.agents.remove(k);
                        configure(&mut a, res);
                        self.agents.insert(k, a);
                        assert(self@ =~= s0.update(k as int, configured(s0[k as int], loaded_view(res))));
                    }
                },
                None => {
                    let name = dir_name(dir.as_str());
                    let config = AgentConfig::empty().set_name(name.clone()).set_dir(dir);
                    let mut a = Agent::new(name, config);
                    assert(a@ == fresh_agent(dir@)) by {
                        assert(a@.config.model.author =~= Seq::<char>::empty());
                        assert(a@.config.model.slug =~= Seq::<char>::empty());
                        assert(a@.system_prompt =~= Seq::<char>::empty());
                        assert(a@.messages =~= Seq::<crate::openrouter::types::MessageView>::empty());
                        assert(a@.queued =~= Seq::<crate::openrouter::types::MessageView>::empty());
                        assert(a@.tool_names =~= Seq::<Seq<char>>::empty());
                    }
                    configure(&mut a, res);
                    self.agents.push(a);
                    assert(self@ =~= s0.push(a@));
                },
            }
            i += 1;
        }
        assert(ls.take(ls.len() as int) =~= ls);
        let mut all_agents: Vec<Agent> = Vec::new();
        core::mem::swap(&mut all_agents, &mut self.agents);
        self.agents = sort_agents_by_name(all_agents);
    }

    /// The directory whose files a reload of the agent `id` reads. Refused
    /// once the agent has started: everything it runs on was built from the
    /// files as they were read then, and it picks up an edited `config.json`
    /// the way it picked up the first one, on a restart.
    pub fn reload_target(&self, id: &str) -> (r: Result<String, RuntimeError>)
        ensures
            match find_id(self@, id@, 0) {
                None => r matches Err(e) && e@ == RuntimeErrorView::UnknownAgent(id@),
                Some(i) => if state_started(self@[i].state) {
                    r matches Err(e) && e@ == RuntimeErrorView::AgentAlreadyStarted(id@)
                } else {
                    r matches Ok(dir) && dir@ == self@[i].config.dir
                },
            },
    {
        match self.position(id) {
            None => Err(RuntimeError::UnknownAgent(id.to_owned())),
            Some(i) => if self.agents[i].started() {
                Err(RuntimeError::AgentAlreadyStarted(id.to_owned()))
            } else {
                Ok(self.agents[i].dir())
            },
        }
    }

    /// Brings in what re-reading the agent `id`'s files came to, and hands
    /// back the files, or the failure to read them as the runtime reports it.
    /// An agent that has started in the meantime is left as it is.
    pub fn apply_reload<T>(&mut self, id: &str, loaded: Loaded<T>) -> (r: Result<
        ConfigFiles,
        RuntimeError,
    >)
        ensures
            match find_id(old(self)@, id@, 0) {
                None => r matches Err(e) && e@ == RuntimeErrorView::UnknownAgent(id@)
                    && final(self)@ == old(self)@,
                Some(i) => if state_started(old(self)@[i].state) {
                    r matches Err(e) && e@ == RuntimeErrorView::AgentAlreadyStarted(id@)
                        && final(self)@ == old(self)@
                } else {
                    &&& final(self)@ == old(self)@.update(
                        i,
                        configured(old(self)@[i], loaded_view(loaded)),
                    )
                    &&& match loaded_view(loaded) {
                        Ok((f, _)) => r matches Ok(files) && files@ == f,
                        Err(e) => r matches Err(x) && x@ == config_failure(e),
                    }
                },
            },
    {
        match self.position(id) {
            None => Err(RuntimeError::UnknownAgent(id.to_owned())),
            Some(i) => {
                if self.agents[i].started() {
                    return Err(RuntimeError::AgentAlreadyStarted(id.to_owned()));
                }
                let ghost s0 = self@;
                let ghost lv = loaded_view(loaded);
                let outcome = match &loaded {
                    Ok((files, _)) => Ok(files.duplicate()),
                    Err(e) => Err(RuntimeError::from_config_files_error(e.duplicate())),
                };
                let mut a = self.agents.remove(i);
                configure(&mut a, loaded);
                self.agents.insert(i, a);
                assert(self@ =~= s0.update(i as int, configured(s0[i as int], lv)));
                outcome
            },
        }
    }
}


/// Reads the agent's files and works its `tools` block out against what the
/// runtime can run, so a tool name the user made up is reported the way a bad
/// model id is: on the configuration screen, before the agent runs.
pub fn load_config_files<T: Tool + Clone>(
    registry: &ToolRegistry<T>,
    dir: &str,
    project_dir: &str,
    scan: DirScan,
) -> (r: Loaded<T>)
    ensures
        match load_outcome(dir@, project_dir@, scan) {
            Err(e) => r matches Err(x) && x@ == e,
            Ok(f) => exists|out: Result<Seq<Seq<char>>, ToolSettingsErrorView>|
                #[trigger] may_resolve(registry.spec_tools(), registry.entries(), f.settings.tools, out)
                    && match out {
                    Err(te) => r matches Err(x) && x@ == ConfigFilesErrorView::InvalidTools(
                        tool_settings_error_text(te),
                    ),
                    Ok(names) => r matches Ok((files, tools)) && {
                        &&& files@ == f
                        &&& agent_tool_names(tools.entries()) == names
                        &&& forall|i: int|
                            0 <= i < names.len() ==> #[trigger] tools.entries()[i].config
                                == block_for(f.settings.tools.configs, names[i])
                    },
                },
        },
{
    let files = ConfigFiles::load(dir, project_dir, scan);
    match files {
        Err(e) => Err(e),
        Ok(files) => {
            let settings = files.tool_settings();
            match registry.resolve(&settings) {
                Ok(tools) => {
                    proof {
                        let f = load_outcome(dir@, project_dir@, scan)->Ok_0;
                        assert(files@ == f);
                        assert(settings@ == f.settings.tools);
                        let names = agent_tool_names(tools.entries());
                        assert forall|i: int| 0 <= i < names.len() implies #[trigger] tools.entries()[i].config
                            == block_for(f.settings.tools.configs, names[i]) by {
                            assert(names[i] == tools.entries()[i].name);
                        }
                        assert forall|i: int| 0 <= i < names.len() implies names[i]
                            == tools.entries()[i].name by {}
                        assert(may_resolve(
                            registry.spec_tools(),
                            registry.entries(),
                            f.settings.tools,
                            Ok::<Seq<Seq<char>>, ToolSettingsErrorView>(names),
                        ));
                    }
                    Ok((files, tools))
                },
                Err(err) => {
                    let m = err.message();
                    proof {
                        let f = load_outcome(dir@, project_dir@, scan)->Ok_0;
                        assert(settings@ == f.settings.tools);
                        assert(may_resolve(
                            registry.spec_tools(),
                            registry.entries(),
                            f.settings.tools,
                            Err::<Seq<Seq<char>>, ToolSettingsErrorView>(err@),
                        ));
                    }
                    Err(ConfigFilesError::InvalidTools(m))
                },
            }
        },
    }
}


// Laws of a reload //////////////////
//////////////////////////////////////

proof fn lemma_find_dir(s: Seq<AgentDefinitionView>, dir: Seq<char>, i: int)
    requires
        0 <= i,
    ensures
        match find_dir(s, dir, i) {
            Some(k) => i <= k < s.len() && s[k].config.dir == dir,
            None => forall|k: int| i <= k < s.len() ==> #[trigger] s[k].config.dir != dir,
        },
    decreases s.len() - i,
{
    if i < s.len() && s[i].config.dir != dir {
        lemma_find_dir(s, dir, i + 1);
    }
}

proof fn lemma_kept_keeps_started(s: Seq<AgentDefinitionView>, dirs: Seq<Seq<char>>, i: int)
    requires
        0 <= i < s.len(),
        state_started(s[i].state),
    ensures
        kept(s, dirs).contains(s[i]),
    decreases s.len(),
{
    let k = kept(s.drop_last(), dirs);
    if i == s.len() - 1 {
        assert(kept(s, dirs) == k.push(s[i]));
        assert(kept(s, dirs)[k.len() as int] == s[i]);
    } else {
        lemma_kept_keeps_started(s.drop_last(), dirs, i);
        assert(s.drop_last()[i] == s[i]);
        let j = choose|j: int| 0 <= j < k.len() && k[j] == s[i];
        let d = s.last();
        if state_started(d.state) || dirs.contains(d.config.dir) {
            assert(kept(s, dirs)[j] == s[i]);
        }
    }
}

proof fn lemma_apply_one_keeps_started(
    s: Seq<AgentDefinitionView>,
    dir: Seq<char>,
    l: LoadedView,
    d: AgentDefinitionView,
)
    requires
        s.contains(d),
        state_started(d.state),
    ensures
        apply_one(s, dir, l).contains(d),
{
    let j = choose|j: int| 0 <= j < s.len() && s[j] == d;
    lemma_find_dir(s, dir, 0);
    match find_dir(s, dir, 0) {
        Some(k) => {
            if !state_started(s[k].state) {
                assert(k != j);
                assert(apply_one(s, dir, l)[j] == d);
            }
        },
        None => {
            assert(apply_one(s, dir, l)[j] == d);
        },
    }
}

proof fn lemma_apply_all_keeps_started(
    s: Seq<AgentDefinitionView>,
    ls: Seq<(Seq<char>, LoadedView)>,
    d: AgentDefinitionView,
)
    requires
        s.contains(d),
        state_started(d.state),
    ensures
        apply_all(s, ls).contains(d),
    decreases ls.len(),
{
    if ls.len() > 0 {
        lemma_apply_all_keeps_started(s, ls.drop_last(), d);
        lemma_apply_one_keeps_started(apply_all(s, ls.drop_last()), ls.last().0, ls.last().1, d);
    }
}

/// A reload never loses a started agent: whatever happened to its directory,
/// and whatever the files read alongside it came to, it is still listed just
/// as it was, session and all.
pub proof fn lemma_reload_keeps_started_agents(
    agents: Seq<AgentDefinitionView>,
    dirs: Seq<Seq<char>>,
    loaded: Seq<(Seq<char>, LoadedView)>,
    i: int,
)
    requires
        0 <= i < agents.len(),
        state_started(agents[i].state),
    ensures
        apply_all(kept(agents, dirs), loaded).contains(agents[i]),
{
    lemma_kept_keeps_started(agents, dirs, i);
    lemma_apply_all_keeps_started(kept(agents, dirs), loaded, agents[i]);
}

/// Every agent in the list that has not started was loaded from one of the
/// directories found.
pub open spec fn unstarted_found(s: Seq<AgentDefinitionView>, dirs: Seq<Seq<char>>) -> bool {
    forall|j: int|
        0 <= j < s.len() && !state_started(#[trigger] s[j].state) ==> dirs.contains(
            s[j].config.dir,
        )
}

proof fn lemma_kept_found(s: Seq<AgentDefinitionView>, dirs: Seq<Seq<char>>)
    ensures
        unstarted_found(kept(s, dirs), dirs),
    decreases s.len(),
{
    if s.len() > 0 {
        lemma_kept_found(s.drop_last(), dirs);
        let k = kept(s.drop_last(), dirs);
        let d = s.last();
        if state_started(d.state) || dirs.contains(d.config.dir) {
            assert forall|j: int|
                0 <= j < k.push(d).len() && !state_started(
                    #[trigger] k.push(d)[j].state,
                ) implies dirs.contains(k.push(d)[j].config.dir) by {
                if j < k.len() {
                    assert(k.push(d)[j] == k[j]);
                }
            }
        }
    }
}

proof fn lemma_apply_all_found(
    s: Seq<AgentDefinitionView>,
    dirs: Seq<Seq<char>>,
    ls: Seq<(Seq<char>, LoadedView)>,
)
    requires
        unstarted_found(s, dirs),
        forall|k: int| 0 <= k < ls.len() ==> dirs.contains(#[trigger] ls[k].0),
    ensures
        unstarted_found(apply_all(s, ls), dirs),
    decreases ls.len(),
{
    if ls.len() > 0 {
        assert forall|k: int| 0 <= k < ls.drop_last().len() implies dirs.contains(
            #[trigger] ls.drop_last()[k].0,
        ) by {
            assert(ls.drop_last()[k] == ls[k]);
        }
        lemma_apply_all_found(s, dirs, ls.drop_last());
        let t = apply_all(s, ls.drop_last());
        let (dir, l) = ls.last();
        assert(dirs.contains(ls[ls.len() - 1].0));
        lemma_find_dir(t, dir, 0);
        let r = apply_one(t, dir, l);
        assert forall|j: int|
            0 <= j < r.len() && !state_started(#[trigger] r[j].state) implies dirs.contains(
            r[j].config.dir,
        ) by {
            if j < t.len() {
                assert(r[j].state == t[j].state && r[j].config.dir == t[j].config.dir);
            }
        }
    }
}

/// After a reload, every agent that has not started was loaded from one of
/// the directories found: one whose directory is gone is dropped.
pub proof fn lemma_reload_drops_vanished_agents(
    agents: Seq<AgentDefinitionView>,
    dirs: Seq<Seq<char>>,
    loaded: Seq<(Seq<char>, LoadedView)>,
)
    requires
        forall|k: int| 0 <= k < loaded.len() ==> dirs.contains(#[trigger] loaded[k].0),
    ensures
        unstarted_found(apply_all(kept(agents, dirs), loaded), dirs),
{
    lemma_kept_found(agents, dirs);
    lemma_apply_all_found(kept(agents, dirs), dirs, loaded);
}

/// A reload never reads the files of a directory a started agent was loaded
/// from, and reads every other one it found.
pub proof fn lemma_started_agents_are_not_reread(
    dirs: Seq<Seq<char>>,
    agents: Seq<AgentDefinitionView>,
    dir: Seq<char>,
)
    ensures
        to_read(dirs, agents).contains(dir) <==> dirs.contains(dir) && !started_in(agents, dir),
    decreases dirs.len(),
{
    if dirs.len() > 0 {
        lemma_started_agents_are_not_reread(dirs.drop_last(), agents, dir);
        let r = to_read(dirs.drop_last(), agents);
        if dirs.contains(dir) && !started_in(agents, dir) {
            let k = choose|k: int| 0 <= k < dirs.len() && dirs[k] == dir;
            if k < dirs.len() - 1 {
                assert(dirs.drop_last()[k] == dir);
                if !started_in(agents, dirs.last()) {
                    let m = choose|m: int| 0 <= m < r.len() && r[m] == dir;
                    assert(r.push(dirs.last())[m] == dir);
                }
            } else {
                assert(r.push(dirs.last())[r.len() as int] == dir);
            }
        }
        if to_read(dirs, agents).contains(dir) {
            let t = to_read(dirs, agents);
            let m = choose|m: int| 0 <= m < t.len() && t[m] == dir;
            if !started_in(agents, dirs.last()) && m == r.len() {
                assert(dirs[dirs.len() - 1] == dir);
            } else {
                assert(r[m] == dir);
                let k = choose|k: int| 0 <= k < dirs.drop_last().len() && dirs.drop_last()[k] == dir;
                assert(dirs[k] == dir);
            }
        }
    }
}


/// Whether an agent in `s` was loaded from `dir`.
pub open spec fn lists_dir(s: Seq<AgentDefinitionView>, dir: Seq<char>) -> bool {
    exists|j: int| 0 <= j < s.len() && #[trigger] s[j].config.dir == dir
}

proof fn lemma_apply_one_lists(
    s: Seq<AgentDefinitionView>,
    d: Seq<char>,
    l: LoadedView,
    dir: Seq<char>,
)
    requires
        lists_dir(s, dir) || d == dir,
    ensures
        lists_dir(apply_one(s, d, l), dir),
{
    lemma_find_dir(s, d, 0);
    let r = apply_one(s, d, l);
    if lists_dir(s, dir) {
        let j = choose|j: int| 0 <= j < s.len() && #[trigger] s[j].config.dir == dir;
        assert(r[j].config.dir == dir);
    } else {
        match find_dir(s, d, 0) {
            Some(k) => {
                assert(r[k].config.dir == dir);
            },
            None => {
                assert(r[s.len() as int].config.dir == dir);
            },
        }
    }
}

proof fn lemma_apply_all_lists(
    s: Seq<AgentDefinitionView>,
    ls: Seq<(Seq<char>, LoadedView)>,
    dir: Seq<char>,
)
    requires
        lists_dir(s, dir) || exists|k: int| 0 <= k < ls.len() && #[trigger] ls[k].0 == dir,
    ensures
        lists_dir(apply_all(s, ls), dir),
    decreases ls.len(),
{
    if ls.len() > 0 {
        let before = apply_all(s, ls.drop_last());
        if lists_dir(s, dir) || exists|k: int|
            0 <= k < ls.drop_last().len() && #[trigger] ls.drop_last()[k].0 == dir {
            lemma_apply_all_lists(s, ls.drop_last(), dir);
        } else {
            let k = choose|k: int| 0 <= k < ls.len() && #[trigger] ls[k].0 == dir;
            if k < ls.len() - 1 {
                assert(ls.drop_last()[k].0 == dir);
            }
            assert(ls.last().0 == dir);
        }
        lemma_apply_one_lists(before, ls.last().0, ls.last().1, dir);
    }
}

/// After a reload that read every directory it was meant to, each directory
/// found is listed: either its agent had started and was kept, or its files
/// were read and it was configured or added.
pub proof fn lemma_reload_lists_every_directory(
    agents: Seq<AgentDefinitionView>,
    dirs: Seq<Seq<char>>,
    loaded: Seq<(Seq<char>, LoadedView)>,
    dir: Seq<char>,
)
    requires
        loaded.map_values(|x: (Seq<char>, LoadedView)| x.0) == to_read(
            dirs,
            kept(agents, dirs),
        ),
        dirs.contains(dir),
    ensures
        lists_dir(apply_all(kept(agents, dirs), loaded), dir),
{
    let k = kept(agents, dirs);
    lemma_started_agents_are_not_reread(dirs, k, dir);
    if started_in(k, dir) {
        let j = choose|j: int|
            0 <= j < k.len() && state_started(#[trigger] k[j].state) && k[j].config.dir == dir;
        lemma_apply_all_keeps_started(k, loaded, k[j]);
        let r = apply_all(k, loaded);
        let m = choose|m: int| 0 <= m < r.len() && r[m] == k[j];
        assert(r[m].config.dir == dir);
    } else {
        let t = to_read(dirs, k);
        let m = choose|m: int| 0 <= m < t.len() && t[m] == dir;
        assert(loaded.map_values(|x: (Seq<char>, LoadedView)| x.0)[m] == loaded[m].0);
        assert(loaded[m].0 == dir);
        lemma_apply_all_lists(k, loaded, dir);
    }
}


// Laws of the agent list ////////////
//////////////////////////////////////

/// No two agents in `s` were loaded from one directory.
pub open spec fn one_per_dir(s: Seq<AgentDefinitionView>) -> bool {
    forall|i: int, j: int|
        0 <= i < s.len() && 0 <= j < s.len() && i != j ==> #[trigger] s[i].config.dir
            != #[trigger] s[j].config.dir
}

/// Each agent in `s` is known by, and listed under, the last part of the
/// directory it was loaded from.
pub open spec fn named_after_dir(s: Seq<AgentDefinitionView>) -> bool {
    forall|i: int|
        0 <= i < s.len() ==> #[trigger] s[i].id == last_component(s[i].config.dir)
            && s[i].config.name == s[i].id
}

proof fn lemma_kept_from(s: Seq<AgentDefinitionView>, dirs: Seq<Seq<char>>)
    ensures
        forall|k: int| 0 <= k < kept(s, dirs).len() ==> s.contains(#[trigger] kept(s, dirs)[k]),
    decreases s.len(),
{
    if s.len() > 0 {
        let f = s.drop_last();
        lemma_kept_from(f, dirs);
        let k = kept(f, dirs);
        assert forall|m: int| 0 <= m < kept(s, dirs).len() implies s.contains(
            #[trigger] kept(s, dirs)[m],
        ) by {
            if m < k.len() {
                assert(kept(s, dirs)[m] == k[m]);
                let w = choose|w: int| 0 <= w < f.len() && f[w] == k[m];
                assert(s[w] == f[w]);
            } else {
                assert(kept(s, dirs)[m] == s[s.len() - 1]);
            }
        }
    }
}

proof fn lemma_kept_lists_once(s: Seq<AgentDefinitionView>, dirs: Seq<Seq<char>>)
    requires
        one_per_dir(s),
        named_after_dir(s),
    ensures
        one_per_dir(kept(s, dirs)),
        named_after_dir(kept(s, dirs)),
    decreases s.len(),
{
    if s.len() > 0 {
        let f = s.drop_last();
        assert forall|i: int, j: int|
            0 <= i < f.len() && 0 <= j < f.len() && i != j implies #[trigger] f[i].config.dir
            != #[trigger] f[j].config.dir by {
            assert(f[i] == s[i] && f[j] == s[j]);
        }
        assert forall|i: int| 0 <= i < f.len() implies #[trigger] f[i].id == last_component(
            f[i].config.dir,
        ) && f[i].config.name == f[i].id by {
            assert(f[i] == s[i]);
        }
        lemma_kept_lists_once(f, dirs);
        lemma_kept_from(f, dirs);
        let k = kept(f, dirs);
        let d = s.last();
        if state_started(d.state) || dirs.contains(d.config.dir) {
            let r = k.push(d);
            assert forall|i: int, j: int|
                0 <= i < r.len() && 0 <= j < r.len() && i != j implies #[trigger] r[i].config.dir
                != #[trigger] r[j].config.dir by {
                if i < k.len() && j < k.len() {
                    assert(r[i] == k[i] && r[j] == k[j]);
                } else {
                    let o = if i < k.len() { i } else { j };
                    assert(r[o] == k[o]);
                    assert(f.contains(k[o]));
                    let w = choose|w: int| 0 <= w < f.len() && f[w] == k[o];
                    assert(s[w] == f[w]);
                    assert(s[s.len() - 1] == d);
                }
            }
            assert forall|i: int| 0 <= i < r.len() implies #[trigger] r[i].id == last_component(
                r[i].config.dir,
            ) && r[i].config.name == r[i].id by {
                if i < k.len() {
                    assert(r[i] == k[i]);
                } else {
                    assert(s[s.len() - 1] == d);
                }
            }
        }
    }
}

proof fn lemma_apply_one_lists_once(s: Seq<AgentDefinitionView>, dir: Seq<char>, l: LoadedView)
    requires
        one_per_dir(s),
        named_after_dir(s),
    ensures
        one_per_dir(apply_one(s, dir, l)),
        named_after_dir(apply_one(s, dir, l)),
{
    lemma_find_dir(s, dir, 0);
    let r = apply_one(s, dir, l);
    assert forall|i: int| 0 <= i < r.len() implies #[trigger] r[i].config.dir == if i < s.len() {
        s[i].config.dir
    } else {
        dir
    } && r[i].id == last_component(r[i].config.dir) && r[i].config.name == r[i].id by {
        if i < s.len() {
            assert(s[i].id == last_component(s[i].config.dir));
        }
    }
    assert forall|i: int, j: int|
        0 <= i < r.len() && 0 <= j < r.len() && i != j implies #[trigger] r[i].config.dir
        != #[trigger] r[j].config.dir by {
        if i < s.len() && j < s.len() {
            assert(s[i].config.dir != s[j].config.dir);
        }
    }
}

proof fn lemma_apply_all_lists_once(s: Seq<AgentDefinitionView>, ls: Seq<(Seq<char>, LoadedView)>)
    requires
        one_per_dir(s),
        named_after_dir(s),
    ensures
        one_per_dir(apply_all(s, ls)),
        named_after_dir(apply_all(s, ls)),
    decreases ls.len(),
{
    if ls.len() > 0 {
        lemma_apply_all_lists_once(s, ls.drop_last());
        lemma_apply_one_lists_once(apply_all(s, ls.drop_last()), ls.last().0, ls.last().1);
    }
}

/// A reload keeps one agent per directory, each known by and listed under
/// the last part of its directory's path, as a load starting from nothing
/// does.
pub proof fn lemma_one_agent_per_directory(
    agents: Seq<AgentDefinitionView>,
    dirs: Seq<Seq<char>>,
    loaded: Seq<(Seq<char>, LoadedView)>,
)
    requires
        one_per_dir(agents),
        named_after_dir(agents),
    ensures
        one_per_dir(apply_all(kept(agents, dirs), loaded)),
        named_after_dir(apply_all(kept(agents, dirs), loaded)),
{
    lemma_kept_lists_once(agents, dirs);
    lemma_apply_all_lists_once(kept(agents, dirs), loaded);
}

/// Agents loaded from sibling directories, which the last parts of their
/// paths tell apart, never share an id.
pub proof fn lemma_listed_agents_have_distinct_ids(s: Seq<AgentDefinitionView>)
    requires
        one_per_dir(s),
        named_after_dir(s),
        forall|i: int, j: int|
            0 <= i < s.len() && 0 <= j < s.len() && last_component(#[trigger] s[i].config.dir)
                == last_component(#[trigger] s[j].config.dir) ==> s[i].config.dir
                == s[j].config.dir,
    ensures
        forall|i: int, j: int|
            0 <= i < s.len() && 0 <= j < s.len() && i != j ==> #[trigger] s[i].id != #[trigger] s[j].id,
{
    assert forall|i: int, j: int|
        0 <= i < s.len() && 0 <= j < s.len() && i != j implies #[trigger] s[i].id
        != #[trigger] s[j].id by {
        assert(s[i].config.dir != s[j].config.dir);
        assert(s[i].id == last_component(s[i].config.dir));
        assert(s[j].id == last_component(s[j].config.dir));
    }
}

proof fn lemma_configured_settles(d: AgentDefinitionView, l: LoadedView)
    ensures
        config_settled(configured(d, l)),
{
}

proof fn lemma_apply_all_settles(s: Seq<AgentDefinitionView>, ls: Seq<(Seq<char>, LoadedView)>)
    requires
        one_per_dir(s),
        named_after_dir(s),
    ensures
        forall|i: int|
            0 <= i < apply_all(s, ls).len() && !state_started(
                #[trigger] apply_all(s, ls)[i].state,
            ) && (exists|k: int| 0 <= k < ls.len() && ls[k].0 == apply_all(s, ls)[i].config.dir)
                ==> config_settled(apply_all(s, ls)[i]),
    decreases ls.len(),
{
    if ls.len() > 0 {
        let f = ls.drop_last();
        lemma_apply_all_settles(s, f);
        lemma_apply_all_lists_once(s, f);
        let t = apply_all(s, f);
        let (dir, l) = ls.last();
        lemma_find_dir(t, dir, 0);
        let r = apply_one(t, dir, l);
        assert(r == apply_all(s, ls));
        assert forall|i: int|
            0 <= i < r.len() && !state_started(#[trigger] r[i].state) && (exists|k: int|
                0 <= k < ls.len() && ls[k].0 == r[i].config.dir) implies config_settled(r[i]) by {
            let k = choose|k: int| 0 <= k < ls.len() && ls[k].0 == r[i].config.dir;
            match find_dir(t, dir, 0) {
                Some(p) => {
                    if i == p && !state_started(t[p].state) {
                        lemma_configured_settles(t[p], l);
                    } else {
                        assert(r[i] == t[i]);
                        if k < f.len() {
                            assert(f[k].0 == t[i].config.dir);
                        } else {
                            assert(t[p].config.dir == dir);
                            assert(i == p);
                        }
                    }
                },
                None => {
                    if i < t.len() {
                        assert(r[i] == t[i]);
                        if k < f.len() {
                            assert(f[k].0 == t[i].config.dir);
                        } else {
                            assert(t[i].config.dir != dir);
                        }
                    } else {
                        lemma_configured_settles(fresh_agent(dir), l);
                    }
                },
            }
        }
    }
}

/// After a reload that read every directory it was meant to, every agent
/// that has not started is settled: its files were read, or it holds the
/// reason they could not be.
pub proof fn lemma_unstarted_agents_are_settled(
    agents: Seq<AgentDefinitionView>,
    dirs: Seq<Seq<char>>,
    loaded: Seq<(Seq<char>, LoadedView)>,
)
    requires
        one_per_dir(agents),
        named_after_dir(agents),
        loaded.map_values(|x: (Seq<char>, LoadedView)| x.0) == to_read(
            dirs,
            kept(agents, dirs),
        ),
    ensures
        forall|i: int|
            0 <= i < apply_all(kept(agents, dirs), loaded).len() && !state_started(
                #[trigger] apply_all(kept(agents, dirs), loaded)[i].state,
            ) ==> config_settled(apply_all(kept(agents, dirs), loaded)[i]),
{
    let k = kept(agents, dirs);
    let r = apply_all(k, loaded);
    lemma_kept_lists_once(agents, dirs);
    lemma_apply_all_lists_once(k, loaded);
    lemma_apply_all_settles(k, loaded);
    assert forall|k2: int| 0 <= k2 < loaded.len() implies dirs.contains(#[trigger] loaded[k2].0) by {
        assert(loaded.map_values(|x: (Seq<char>, LoadedView)| x.0)[k2] == loaded[k2].0);
        lemma_started_agents_are_not_reread(dirs, k, loaded[k2].0);
    }
    lemma_reload_drops_vanished_agents(agents, dirs, loaded);
    assert forall|i: int| 0 <= i < r.len() && !state_started(#[trigger] r[i].state) implies config_settled(r[i]) by {
        let dir = r[i].config.dir;
        assert(dirs.contains(dir));
        if started_in(k, dir) {
            let j = choose|j: int|
                0 <= j < k.len() && state_started(#[trigger] k[j].state) && k[j].config.dir == dir;
            lemma_apply_all_keeps_started(k, loaded, k[j]);
            let m = choose|m: int| 0 <= m < r.len() && r[m] == k[j];
            assert(r[m].config.dir == r[i].config.dir);
        } else {
            lemma_started_agents_are_not_reread(dirs, k, dir);
            let t = to_read(dirs, k);
            let m = choose|m: int| 0 <= m < t.len() && t[m] == dir;
            assert(loaded.map_values(|x: (Seq<char>, LoadedView)| x.0)[m] == loaded[m].0);
            assert(loaded[m].0 == r[i].config.dir);
        }
    }
}

/// Directories told apart by the last part of their paths, as the children
/// of one project directory are.
pub open spec fn siblings(family: Set<Seq<char>>) -> bool {
    forall|a: Seq<char>, b: Seq<char>|
        family.contains(a) && family.contains(b) && #[trigger] last_component(a)
            == #[trigger] last_component(b) ==> a == b
}

/// A list of agents as a runtime keeps it: one per directory, each named
/// after its directory, every directory one of `family`.
pub open spec fn listed_from(s: Seq<AgentDefinitionView>, family: Set<Seq<char>>) -> bool {
    &&& one_per_dir(s)
    &&& named_after_dir(s)
    &&& forall|i: int| 0 <= i < s.len() ==> family.contains(#[trigger] s[i].config.dir)
}

proof fn lemma_apply_all_dirs(
    s: Seq<AgentDefinitionView>,
    ls: Seq<(Seq<char>, LoadedView)>,
    family: Set<Seq<char>>,
)
    requires
        forall|i: int| 0 <= i < s.len() ==> family.contains(#[trigger] s[i].config.dir),
        forall|k: int| 0 <= k < ls.len() ==> family.contains(#[trigger] ls[k].0),
    ensures
        forall|i: int|
            0 <= i < apply_all(s, ls).len() ==> family.contains(
                #[trigger] apply_all(s, ls)[i].config.dir,
            ),
    decreases ls.len(),
{
    if ls.len() > 0 {
        let f = ls.drop_last();
        assert forall|k: int| 0 <= k < f.len() implies family.contains(#[trigger] f[k].0) by {
            assert(f[k] == ls[k]);
        }
        lemma_apply_all_dirs(s, f, family);
        let t = apply_all(s, f);
        lemma_find_dir(t, ls.last().0, 0);
        assert(family.contains(ls[ls.len() - 1].0));
        let r = apply_one(t, ls.last().0, ls.last().1);
        assert forall|i: int| 0 <= i < r.len() implies family.contains(#[trigger] r[i].config.dir) by {
            if i < t.len() {
                assert(r[i].config.dir == t[i].config.dir);
            }
        }
    }
}

/// A runtime's list starts empty and changes only by reloads from
/// directories of one family of siblings; each reload keeps it one agent per
/// directory, named after it, so no two agents it lists ever share an id.
pub proof fn lemma_a_loaded_runtime_lists_distinct_ids(
    agents: Seq<AgentDefinitionView>,
    dirs: Seq<Seq<char>>,
    loaded: Seq<(Seq<char>, LoadedView)>,
    family: Set<Seq<char>>,
)
    requires
        siblings(family),
        listed_from(agents, family),
        forall|k: int| 0 <= k < loaded.len() ==> family.contains(#[trigger] loaded[k].0),
    ensures
        listed_from(Seq::<AgentDefinitionView>::empty(), family),
        listed_from(apply_all(kept(agents, dirs), loaded), family),
        forall|i: int, j: int|
            0 <= i < apply_all(kept(agents, dirs), loaded).len() && 0 <= j < apply_all(
                kept(agents, dirs),
                loaded,
            ).len() && i != j ==> #[trigger] apply_all(kept(agents, dirs), loaded)[i].id
                != #[trigger] apply_all(kept(agents, dirs), loaded)[j].id,
{
    let k = kept(agents, dirs);
    let r = apply_all(k, loaded);
    lemma_one_agent_per_directory(agents, dirs, loaded);
    lemma_kept_from(agents, dirs);
    assert forall|i: int| 0 <= i < k.len() implies family.contains(#[trigger] k[i].config.dir) by {
        let w = choose|w: int| 0 <= w < agents.len() && agents[w] == k[i];
        assert(family.contains(agents[w].config.dir));
    }
    lemma_apply_all_dirs(k, loaded, family);
    assert forall|i: int, j: int|
        0 <= i < r.len() && 0 <= j < r.len() && last_component(#[trigger] r[i].config.dir)
            == last_component(#[trigger] r[j].config.dir) implies r[i].config.dir
        == r[j].config.dir by {
        assert(family.contains(r[i].config.dir) && family.contains(r[j].config.dir));
    }
    lemma_listed_agents_have_distinct_ids(r);
}

} // verus!
