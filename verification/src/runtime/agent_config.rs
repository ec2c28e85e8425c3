//! What an agent is configured from: its own `config.json`, `AGENTS.md`, the
//! system prompt in `SYSTEM.md` and the optional `DIRECTIVE.md`.

use vstd::prelude::*;
use vstd::string::*;

use crate::text::{
    chars_of, join_path, lemma_strings_view_push, path_join, push_char, string_from_chars,
    strings_view,
};

verus! {

/// The agent's own settings. Lives in the agent's directory, alongside the
/// project's `config.json` but scoped to this one agent.
pub const AGENT_CONFIG_FILE_NAME: &'static str = "config.json";

/// The opening instruction an agent runs on. Optional: without it the agent
/// waits for the user to type the first message.
pub const DIRECTIVE_FILE_NAME: &'static str = "DIRECTIVE.md";

/// Describes what the agent is meant to accomplish.
pub const AGENTS_FILE_NAME: &'static str = "AGENTS.md";

/// The system prompt: the agent's restrictions and general guidelines. Looked
/// up in the agent's directory first, then in the project directory.
pub const SYSTEM_FILE_NAME: &'static str = "SYSTEM.md";

// Model /////////////////////////////
//////////////////////////////////////

/// The model an agent runs on, split out of an "author/slug" id.
#[derive(Debug, Clone)]
pub struct Model {
    /// ex: openai
    pub author: String,
    /// ex: gpt-4o
    pub slug: String,
}

pub struct ModelView {
    pub author: Seq<char>,
    pub slug: Seq<char>,
}

impl View for Model {
    type V = ModelView;

    open spec fn view(&self) -> ModelView {
        ModelView { author: self.author@, slug: self.slug@ }
    }
}

/// The index of the first '/' in `s` at or after `i`.
pub open spec fn first_slash(s: Seq<char>, i: int) -> Option<int>
    decreases s.len() - i,
{
    if i < 0 || i >= s.len() {
        None
    } else if s[i] == '/' {
        Some(i)
    } else {
        first_slash(s, i + 1)
    }
}

/// An "author/slug" id split at its first '/', when both sides are non empty.
pub open spec fn parse_model(s: Seq<char>) -> Option<ModelView> {
    match first_slash(s, 0) {
        Some(i) => if 0 < i && i + 1 < s.len() {
            Some(ModelView { author: s.take(i), slug: s.skip(i + 1) })
        } else {
            None
        },
        None => None,
    }
}

pub open spec fn model_valid(m: ModelView) -> bool {
    m.author.len() > 0 && m.slug.len() > 0
}

pub open spec fn full_slug(m: ModelView) -> Seq<char> {
    m.author + seq!['/'] + m.slug
}

pub open spec fn model_label(m: ModelView) -> Seq<char> {
    if model_valid(m) {
        full_slug(m)
    } else {
        "(unset)"@
    }
}

proof fn lemma_first_slash_none(s: Seq<char>, i: int)
    requires
        0 <= i <= s.len(),
        forall|j: int| i <= j < s.len() ==> s[j] != '/',
    ensures
        first_slash(s, i) is None,
    decreases s.len() - i,
{
    if i < s.len() {
        lemma_first_slash_none(s, i + 1);
    }
}

proof fn lemma_first_slash_at(s: Seq<char>, i: int, k: int)
    requires
        0 <= i <= k < s.len(),
        s[k] == '/',
        forall|j: int| i <= j < k ==> s[j] != '/',
    ensures
        first_slash(s, i) == Some(k),
    decreases k - i,
{
    if i < k {
        lemma_first_slash_at(s, i + 1, k);
    }
}

/// Splitting a model's own id gives the model back, so long as its author
/// holds no '/': the id is split at its first '/'.
pub proof fn lemma_parse_full_slug(m: ModelView)
    requires
        model_valid(m),
        forall|j: int| 0 <= j < m.author.len() ==> m.author[j] != '/',
    ensures
        parse_model(full_slug(m)) == Some(m),
{
    let s = full_slug(m);
    let k = m.author.len() as int;
    assert(s[k] == '/');
    assert forall|j: int| 0 <= j < k implies s[j] != '/' by {
        assert(s[j] == m.author[j]);
    }
    lemma_first_slash_at(s, 0, k);
    assert(s.take(k) =~= m.author);
    assert(s.skip(k + 1) =~= m.slug);
}

/// Any id that parses is exactly the id of the model it parses to.
pub proof fn lemma_full_slug_of_parse(s: Seq<char>)
    requires
        parse_model(s) is Some,
    ensures
        full_slug(parse_model(s)->0) == s,
        model_valid(parse_model(s)->0),
{
    let k = first_slash(s, 0)->0;
    lemma_first_slash_found(s, 0);
    assert(s.take(k) + seq!['/'] + s.skip(k + 1) =~= s);
}

proof fn lemma_first_slash_found(s: Seq<char>, i: int)
    requires
        first_slash(s, i) is Some,
    ensures
        i <= first_slash(s, i)->0 < s.len(),
        s[first_slash(s, i)->0] == '/',
        0 <= i,
    decreases s.len() - i,
{
    if i >= 0 && i < s.len() && s[i] != '/' {
        lemma_first_slash_found(s, i + 1);
    }
}

impl Model {
    /// The model of an agent that has none yet, either because it has not
    /// been configured or because its `config.json` could not be read.
    pub fn empty() -> (m: Model)
        ensures
            m@.author.len() == 0,
            m@.slug.len() == 0,
    {
        Model { author: String::new(), slug: String::new() }
    }

    /// Splits an "author/slug" model id, as written in a `config.json`, at its
    /// first '/'. Both sides must be non empty.
    pub fn parse(full_slug: &str) -> (r: Option<Model>)
        ensures
            match r {
                Some(m) => parse_model(full_slug@) == Some(m@),
                None => parse_model(full_slug@) is None,
            },
    {
        let v = chars_of(full_slug);
        let mut i: usize = 0;
        while i < v.len() && v[i] != '/'
            invariant
                0 <= i <= v@.len(),
                v@ == full_slug@,
                forall|j: int| 0 <= j < i ==> v@[j] != '/',
            decreases v.len() - i,
        {
            i += 1;
        }
        if i == v.len() {
            proof {
                lemma_first_slash_none(v@, 0);
            }
            return None;
        }
        proof {
            lemma_first_slash_at(v@, 0, i as int);
        }
        if i == 0 || i + 1 >= v.len() {
            return None;
        }
        let author = string_from_chars(v.as_slice(), 0, i);
        let slug = string_from_chars(v.as_slice(), i + 1, v.len());
        assert(v@.subrange(0, i as int) =~= v@.take(i as int));
        assert(v@.subrange(i + 1, v@.len() as int) =~= v@.skip(i + 1));
        Some(Model { author, slug })
    }

    pub fn valid(&self) -> (r: bool)
        ensures
            r == model_valid(self@),
    {
        !self.author.as_str().is_empty() && !self.slug.as_str().is_empty()
    }

    /// How the model reads on screen. An agent whose `config.json` failed to
    /// load has no model at all, which says more than an empty "/".
    pub fn label(&self) -> (r: String)
        ensures
            r@ == model_label(self@),
    {
        if self.valid() {
            self.full_slug()
        } else {
            "(unset)".to_owned()
        }
    }

    pub fn full_slug(&self) -> (r: String)
        ensures
            r@ == full_slug(self@),
    {
        let mut r = self.author.clone();
        push_char(&mut r, '/');
        r.append(self.slug.as_str());
        r
    }

    pub fn duplicate(&self) -> (r: Model)
        ensures
            r@ == self@,
    {
        Model { author: self.author.clone(), slug: self.slug.clone() }
    }
}

// Agent config //////////////////////
//////////////////////////////////////

/// Who an agent is and what it runs on.
#[derive(Debug, Clone)]
pub struct AgentConfig {
    name: String,
    model: Model,
    dir: String,
    max_iterations: u32,
}

/// `c` with the settings `config.json` gave it taken away: no model and no
/// iteration bound, still named after and pointed at its directory.
pub open spec fn cleared_config(c: AgentConfigView) -> AgentConfigView {
    AgentConfigView {
        model: ModelView { author: Seq::empty(), slug: Seq::empty() },
        max_iterations: 0,
        ..c
    }
}

pub struct AgentConfigView {
    pub name: Seq<char>,
    pub model: ModelView,
    pub dir: Seq<char>,
    pub max_iterations: u32,
}

impl View for AgentConfig {
    type V = AgentConfigView;

    closed spec fn view(&self) -> AgentConfigView {
        AgentConfigView {
            name: self.name@,
            model: self.model@,
            dir: self.dir@,
            max_iterations: self.max_iterations,
        }
    }
}

impl AgentConfig {
    pub fn empty() -> (c: AgentConfig)
        ensures
            c@.name.len() == 0,
            c@.model.author.len() == 0,
            c@.model.slug.len() == 0,
            c@.dir.len() == 0,
            c@.max_iterations == 0,
    {
        AgentConfig {
            name: String::new(),
            model: Model::empty(),
            dir: String::new(),
            max_iterations: 0,
        }
    }

    pub fn name(&self) -> (r: String)
        ensures
            r@ == self@.name,
    {
        self.name.clone()
    }

    pub fn model(&self) -> (r: Model)
        ensures
            r@ == self@.model,
    {
        self.model.duplicate()
    }

    /// The directory the agent works in.
    pub fn dir(&self) -> (r: String)
        ensures
            r@ == self@.dir,
    {
        self.dir.clone()
    }

    /// The most requests the agent may make to the model in one turn.
    pub fn max_iterations(&self) -> (r: u32)
        ensures
            r == self@.max_iterations,
    {
        self.max_iterations
    }

    pub fn set_name(self, name: String) -> (c: AgentConfig)
        ensures
            c@ == (AgentConfigView { name: name@, ..self@ }),
    {
        let mut c = self;
        c.name = name;
        c
    }

    pub fn set_model(self, model: Model) -> (c: AgentConfig)
        ensures
            c@ == (AgentConfigView { model: model@, ..self@ }),
    {
        let mut c = self;
        c.model = model;
        c
    }

    pub fn set_dir(self, dir: String) -> (c: AgentConfig)
        ensures
            c@ == (AgentConfigView { dir: dir@, ..self@ }),
    {
        let mut c = self;
        c.dir = dir;
        c
    }

    pub fn set_max_iterations(self, max_iterations: u32) -> (c: AgentConfig)
        ensures
            c@ == (AgentConfigView { max_iterations, ..self@ }),
    {
        let mut c = self;
        c.max_iterations = max_iterations;
        c
    }

    /// Takes on the settings its files were read into: the model and the
    /// iteration bound.
    pub fn set_from_config_files(self, files: &ConfigFiles) -> (c: AgentConfig)
        ensures
            c@ == (AgentConfigView {
                model: files@.model,
                max_iterations: files@.settings.agent_max_iterations,
                ..self@
            }),
    {
        let mut c = self;
        c.model = files.model();
        c.max_iterations = files.agent_max_iterations();
        c
    }

    /// Drops the settings that came out of a `config.json` that no longer
    /// loads, keeping the name and directory.
    pub fn clear_settings(self) -> (c: AgentConfig)
        ensures
            c@ == cleared_config(self@),
    {
        let mut c = self;
        c.model = Model::empty();
        c.max_iterations = 0;
        assert(c@.model.author =~= Seq::<char>::empty());
        assert(c@.model.slug =~= Seq::<char>::empty());
        c
    }

    pub fn duplicate(&self) -> (r: AgentConfig)
        ensures
            r@ == self@,
    {
        AgentConfig {
            name: self.name.clone(),
            model: self.model.duplicate(),
            dir: self.dir.clone(),
            max_iterations: self.max_iterations,
        }
    }
}

// Config files //////////////////////
//////////////////////////////////////

/// One of the files an agent is configured from.
#[derive(Debug, Clone)]
pub struct ConfigFile {
    name: String,
    path: String,
    present: bool,
    /// An optional file changes how the agent behaves when it is there, but
    /// its absence never stops the agent from running.
    required: bool,
}

pub struct ConfigFileView {
    pub name: Seq<char>,
    pub path: Seq<char>,
    pub present: bool,
    pub required: bool,
}

impl View for ConfigFile {
    type V = ConfigFileView;

    closed spec fn view(&self) -> ConfigFileView {
        ConfigFileView {
            name: self.name@,
            path: self.path@,
            present: self.present,
            required: self.required,
        }
    }
}

pub open spec fn file_missing(f: ConfigFileView) -> bool {
    f.required && !f.present
}

impl ConfigFile {
    pub fn new(name: &str, path: String, present: bool, required: bool) -> (f: ConfigFile)
        ensures
            f@ == (ConfigFileView { name: name@, path: path@, present, required }),
    {
        ConfigFile { name: name.to_owned(), path, present, required }
    }

    pub fn name(&self) -> (r: String)
        ensures
            r@ == self@.name,
    {
        self.name.clone()
    }

    pub fn path(&self) -> (r: String)
        ensures
            r@ == self@.path,
    {
        self.path.clone()
    }

    pub fn present(&self) -> (r: bool)
        ensures
            r == self@.present,
    {
        self.present
    }

    pub fn required(&self) -> (r: bool)
        ensures
            r == self@.required,
    {
        self.required
    }

    /// The agent cannot run until this file shows up.
    pub fn missing(&self) -> (r: bool)
        ensures
            r == file_missing(self@),
    {
        self.required && !self.present
    }

    pub fn duplicate(&self) -> (r: ConfigFile)
        ensures
            r@ == self@,
    {
        ConfigFile {
            name: self.name.clone(),
            path: self.path.clone(),
            present: self.present,
            required: self.required,
        }
    }
}

/// One tool's block out of `tools.configs`: which tool it is for, and the
/// settings object the tool reads for itself.
#[derive(Debug, Clone)]
pub struct ToolConfig {
    pub tool: String,
    /// Every key of the block but `tool`, as a json object.
    pub settings: String,
}

impl ToolConfig {
    /// The tool's own settings, the object a tool is handed.
    pub fn settings_value(&self) -> (r: String)
        ensures
            r@ == self.settings@,
    {
        self.settings.clone()
    }

    pub fn duplicate(&self) -> (r: ToolConfig)
        ensures
            r.tool@ == self.tool@,
            r.settings@ == self.settings@,
    {
        ToolConfig { tool: self.tool.clone(), settings: self.settings.clone() }
    }
}

/// The `tools` block of an agent's `config.json`. `enabled` defaults to
/// nothing, so an agent has to opt in before it can run commands.
#[derive(Debug, Clone)]
pub struct ToolSettings {
    pub enabled: Vec<String>,
    pub configs: Vec<ToolConfig>,
}

pub open spec fn tool_configs_view(v: Seq<ToolConfig>) -> Seq<ToolConfigView> {
    v.map_values(|c: ToolConfig| ToolConfigView { tool: c.tool@, settings: c.settings@ })
}

proof fn lemma_tool_configs_view_push(s: Seq<ToolConfig>, x: ToolConfig)
    ensures
        tool_configs_view(s.push(x)) == tool_configs_view(s).push(
            ToolConfigView { tool: x.tool@, settings: x.settings@ },
        ),
{
    assert(tool_configs_view(s.push(x)) =~= tool_configs_view(s).push(
        ToolConfigView { tool: x.tool@, settings: x.settings@ },
    ));
}

pub struct ToolConfigView {
    pub tool: Seq<char>,
    pub settings: Seq<char>,
}

pub struct ToolSettingsView {
    pub enabled: Seq<Seq<char>>,
    pub configs: Seq<ToolConfigView>,
}

impl View for ToolSettings {
    type V = ToolSettingsView;

    open spec fn view(&self) -> ToolSettingsView {
        ToolSettingsView {
            enabled: strings_view(self.enabled@),
            configs: tool_configs_view(self.configs@),
        }
    }
}

impl ToolSettings {
    /// No tools enabled and no settings for any.
    pub fn empty() -> (t: ToolSettings)
        ensures
            t@.enabled.len() == 0,
            t@.configs.len() == 0,
    {
        let t = ToolSettings { enabled: Vec::new(), configs: Vec::new() };
        assert(t@.enabled =~= Seq::empty());
        t
    }

    pub fn duplicate(&self) -> (r: ToolSettings)
        ensures
            r@ == self@,
    {
        let mut enabled: Vec<String> = Vec::new();
        for i in 0..self.enabled.len()
            invariant
                strings_view(enabled@) == self@.enabled.take(i as int),
        {
            let ghost before = enabled@;
            let name = self.enabled[i].clone();
            proof {
                lemma_strings_view_push(before, name);
            }
            enabled.push(name);
            assert(self@.enabled[i as int] == self.enabled@[i as int]@);
            assert(strings_view(enabled@) =~= self@.enabled.take(i + 1));
        }
        let mut configs: Vec<ToolConfig> = Vec::new();
        for i in 0..self.configs.len()
            invariant
                tool_configs_view(configs@) == self@.configs.take(i as int),
        {
            let ghost before = configs@;
            let config = self.configs[i].duplicate();
            proof {
                lemma_tool_configs_view_push(before, config);
            }
            configs.push(config);
            assert(self@.configs[i as int] == (ToolConfigView {
                tool: self.configs@[i as int].tool@,
                settings: self.configs@[i as int].settings@,
            }));
            assert(tool_configs_view(configs@) =~= self@.configs.take(i + 1));
        }
        let r = ToolSettings { enabled, configs };
        assert(r@.enabled =~= self@.enabled);
        assert(r@.configs =~= self@.configs);
        r
    }
}

/// The contents of an agent's `config.json`. `model` and
/// `agent_max_iterations` are required; there is no project wide default for
/// either.
#[derive(Debug, Clone)]
pub struct AgentSettings {
    /// The model the agent runs on. Ex: "openai/gpt-4o".
    pub model: String,
    /// The most requests the agent may make to the model in a single turn.
    pub agent_max_iterations: u32,
    pub tools: ToolSettings,
}

pub struct AgentSettingsView {
    pub model: Seq<char>,
    pub agent_max_iterations: u32,
    pub tools: ToolSettingsView,
}

impl View for AgentSettings {
    type V = AgentSettingsView;

    open spec fn view(&self) -> AgentSettingsView {
        AgentSettingsView {
            model: self.model@,
            agent_max_iterations: self.agent_max_iterations,
            tools: self.tools@,
        }
    }
}

impl AgentSettings {
    pub fn duplicate(&self) -> (r: AgentSettings)
        ensures
            r@ == self@,
    {
        AgentSettings {
            model: self.model.clone(),
            agent_max_iterations: self.agent_max_iterations,
            tools: self.tools.duplicate(),
        }
    }
}

/// Why an agent's `config.json` could not be turned into settings. Every one
/// of these stops the agent being configured at all.
#[derive(Debug, Clone)]
pub enum ConfigFilesError {
    Missing { name: String, path: String },
    Unreadable { name: String, path: String, error: String },
    InvalidModel(String),
    InvalidMaxIterations,
    InvalidTools(String),
}

pub enum ConfigFilesErrorView {
    Missing { name: Seq<char>, path: Seq<char> },
    Unreadable { name: Seq<char>, path: Seq<char>, error: Seq<char> },
    InvalidModel(Seq<char>),
    InvalidMaxIterations,
    InvalidTools(Seq<char>),
}

impl View for ConfigFilesError {
    type V = ConfigFilesErrorView;

    open spec fn view(&self) -> ConfigFilesErrorView {
        match self {
            ConfigFilesError::Missing { name, path } => ConfigFilesErrorView::Missing {
                name: name@,
                path: path@,
            },
            ConfigFilesError::Unreadable { name, path, error } => ConfigFilesErrorView::Unreadable {
                name: name@,
                path: path@,
                error: error@,
            },
            ConfigFilesError::InvalidModel(m) => ConfigFilesErrorView::InvalidModel(m@),
            ConfigFilesError::InvalidMaxIterations => ConfigFilesErrorView::InvalidMaxIterations,
            ConfigFilesError::InvalidTools(e) => ConfigFilesErrorView::InvalidTools(e@),
        }
    }
}

/// What a failure to read an agent's configuration says.
pub open spec fn config_files_error_text(e: ConfigFilesErrorView) -> Seq<char> {
    match e {
        ConfigFilesErrorView::Missing { name, path } => "`"@ + name + "` not found: "@ + path,
        ConfigFilesErrorView::Unreadable { name, error, .. } => "`"@ + name
            + "` could not be read: "@ + error,
        ConfigFilesErrorView::InvalidModel(m) => "`model` is not an \"author/slug\" id: "@ + m,
        ConfigFilesErrorView::InvalidMaxIterations => "`agent_max_iterations` must be at least 1"@,
        ConfigFilesErrorView::InvalidTools(e) => "the `tools` block is not usable: "@ + e,
    }
}

impl ConfigFilesError {
    pub fn message(&self) -> (r: String)
        ensures
            r@ == config_files_error_text(self@),
    {
        match self {
            ConfigFilesError::Missing { name, path } => {
                let mut r = "`".to_owned();
                r.append(name.as_str());
                r.append("` not found: ");
                r.append(path.as_str());
                r
            },
            ConfigFilesError::Unreadable { name, error, .. } => {
                let mut r = "`".to_owned();
                r.append(name.as_str());
                r.append("` could not be read: ");
                r.append(error.as_str());
                r
            },
            ConfigFilesError::InvalidModel(m) => {
                let mut r = "`model` is not an \"author/slug\" id: ".to_owned();
                r.append(m.as_str());
                r
            },
            ConfigFilesError::InvalidMaxIterations => "`agent_max_iterations` must be at least 1".to_owned(),
            ConfigFilesError::InvalidTools(e) => {
                let mut r = "the `tools` block is not usable: ".to_owned();
                r.append(e.as_str());
                r
            },
        }
    }

    pub fn duplicate(&self) -> (r: ConfigFilesError)
        ensures
            r@ == self@,
    {
        match self {
            ConfigFilesError::Missing { name, path } => ConfigFilesError::Missing {
                name: name.clone(),
                path: path.clone(),
            },
            ConfigFilesError::Unreadable { name, path, error } => ConfigFilesError::Unreadable {
                name: name.clone(),
                path: path.clone(),
                error: error.clone(),
            },
            ConfigFilesError::InvalidModel(m) => ConfigFilesError::InvalidModel(m.clone()),
            ConfigFilesError::InvalidMaxIterations => ConfigFilesError::InvalidMaxIterations,
            ConfigFilesError::InvalidTools(e) => ConfigFilesError::InvalidTools(e.clone()),
        }
    }
}

/// What reading an agent's `config.json` came to.
#[derive(Debug, Clone)]
pub enum SettingsRead {
    /// The file could not be read at all.
    Missing,
    /// The file was read but is not the settings json: the parser's message.
    Unparsable(String),
    Parsed(AgentSettings),
}

/// What the agent's directory and the project directory held when they were
/// looked at: the outcome of reading `config.json`, and which of the other
/// files are there.
#[derive(Debug, Clone)]
pub struct DirScan {
    pub config_present: bool,
    pub settings: SettingsRead,
    pub agents_present: bool,
    /// `SYSTEM.md` in the agent's own directory.
    pub local_system_present: bool,
    /// `SYSTEM.md` in the project directory.
    pub project_system_present: bool,
    pub directive_present: bool,
}

/// The files an agent is configured from, and whether each one was found.
/// `config.json` is not among the maybes: it is read before the rest, and
/// without it there are no `ConfigFiles` at all.
#[derive(Debug, Clone)]
pub struct ConfigFiles {
    config_file: ConfigFile,
    agents_file: ConfigFile,
    system_file: ConfigFile,
    directive_file: ConfigFile,
    /// The parsed `config.json`.
    settings: AgentSettings,
    /// The model named by `settings`, already split into author and slug.
    model: Model,
}

pub struct ConfigFilesView {
    pub config_file: ConfigFileView,
    pub agents_file: ConfigFileView,
    pub system_file: ConfigFileView,
    pub directive_file: ConfigFileView,
    pub settings: AgentSettingsView,
    pub model: ModelView,
}

impl View for ConfigFiles {
    type V = ConfigFilesView;

    closed spec fn view(&self) -> ConfigFilesView {
        ConfigFilesView {
            config_file: self.config_file@,
            agents_file: self.agents_file@,
            system_file: self.system_file@,
            directive_file: self.directive_file@,
            settings: self.settings@,
            model: self.model@,
        }
    }
}

/// The files in the order they are shown and checked: `config.json`, the
/// system prompt, `AGENTS.md`, `DIRECTIVE.md`.
pub open spec fn files_of(f: ConfigFilesView) -> Seq<ConfigFileView> {
    seq![f.config_file, f.system_file, f.agents_file, f.directive_file]
}

/// The first file of `files` at or after `i` that is required and absent.
pub open spec fn first_missing(files: Seq<ConfigFileView>, i: int) -> Option<ConfigFileView>
    decreases files.len() - i,
{
    if i < 0 || i >= files.len() {
        None
    } else if file_missing(files[i]) {
        Some(files[i])
    } else {
        first_missing(files, i + 1)
    }
}

/// What `ConfigFiles::load` comes to for the directory `dir` of a project in
/// `project_dir`, given what the disk held.
pub open spec fn load_outcome(
    dir: Seq<char>,
    project_dir: Seq<char>,
    scan: DirScan,
) -> Result<ConfigFilesView, ConfigFilesErrorView> {
    let config_path = path_join(dir, AGENT_CONFIG_FILE_NAME@);
    match scan.settings {
        SettingsRead::Missing => Err(
            ConfigFilesErrorView::Missing { name: AGENT_CONFIG_FILE_NAME@, path: config_path },
        ),
        SettingsRead::Unparsable(e) => Err(
            ConfigFilesErrorView::Unreadable {
                name: AGENT_CONFIG_FILE_NAME@,
                path: config_path,
                error: e@,
            },
        ),
        SettingsRead::Parsed(settings) => match parse_model(settings.model@) {
            None => Err(ConfigFilesErrorView::InvalidModel(settings.model@)),
            Some(model) => if settings.agent_max_iterations == 0 {
                Err(ConfigFilesErrorView::InvalidMaxIterations)
            } else {
                Ok(
                    ConfigFilesView {
                        config_file: ConfigFileView {
                            name: AGENT_CONFIG_FILE_NAME@,
                            path: config_path,
                            present: scan.config_present,
                            required: true,
                        },
                        agents_file: ConfigFileView {
                            name: AGENTS_FILE_NAME@,
                            path: path_join(dir, AGENTS_FILE_NAME@),
                            present: scan.agents_present,
                            required: true,
                        },
                        system_file: ConfigFileView {
                            name: SYSTEM_FILE_NAME@,
                            path: if scan.local_system_present {
                                path_join(dir, SYSTEM_FILE_NAME@)
                            } else {
                                path_join(project_dir, SYSTEM_FILE_NAME@)
                            },
                            present: scan.local_system_present || scan.project_system_present,
                            required: true,
                        },
                        directive_file: ConfigFileView {
                            name: DIRECTIVE_FILE_NAME@,
                            path: path_join(dir, DIRECTIVE_FILE_NAME@),
                            present: scan.directive_present,
                            required: false,
                        },
                        settings: settings@,
                        model,
                    },
                )
            },
        },
    }
}

impl ConfigFiles {
    /// Puts together what reading `dir` came to. `config.json` is required: it
    /// names the model the agent runs on and the most iterations it may take,
    /// and there is no project wide default for either, so a missing,
    /// unparseable, modelless or zero-bounded one is an error rather than a
    /// gap shown beside the other files. The system prompt may live in
    /// `project_dir` instead of `dir`, so one can be shared by every agent.
    pub fn load(dir: &str, project_dir: &str, scan: DirScan) -> (r: Result<
        ConfigFiles,
        ConfigFilesError,
    >)
        ensures
            match r {
                Ok(f) => load_outcome(dir@, project_dir@, scan) == Ok::<
                    ConfigFilesView,
                    ConfigFilesErrorView,
                >(f@),
                Err(e) => load_outcome(dir@, project_dir@, scan) == Err::<
                    ConfigFilesView,
                    ConfigFilesErrorView,
                >(e@),
            },
    {
        let ghost scan0 = scan;
        let config_path = join_path(dir, AGENT_CONFIG_FILE_NAME);
        let settings = match scan.settings {
            SettingsRead::Missing => {
                return Err(
                    ConfigFilesError::Missing {
                        name: AGENT_CONFIG_FILE_NAME.to_owned(),
                        path: config_path,
                    },
                );
            },
            SettingsRead::Unparsable(e) => {
                return Err(
                    ConfigFilesError::Unreadable {
                        name: AGENT_CONFIG_FILE_NAME.to_owned(),
                        path: config_path,
                        error: e,
                    },
                );
            },
            SettingsRead::Parsed(settings) => settings,
        };
        let model = match Model::parse(settings.model.as_str()) {
            Some(model) => model,
            None => {
                return Err(ConfigFilesError::InvalidModel(settings.model));
            },
        };
        if settings.agent_max_iterations == 0 {
            return Err(ConfigFilesError::InvalidMaxIterations);
        }
        let config_file = ConfigFile::new(
            AGENT_CONFIG_FILE_NAME,
            config_path,
            scan.config_present,
            true,
        );
        let agents_file = ConfigFile::new(
            AGENTS_FILE_NAME,
            join_path(dir, AGENTS_FILE_NAME),
            scan.agents_present,
            true,
        );
        let system_path = if scan.local_system_present {
            join_path(dir, SYSTEM_FILE_NAME)
        } else {
            join_path(project_dir, SYSTEM_FILE_NAME)
        };
        let system_file = ConfigFile::new(
            SYSTEM_FILE_NAME,
            system_path,
            scan.local_system_present || scan.project_system_present,
            true,
        );
        let directive_file = ConfigFile::new(
            DIRECTIVE_FILE_NAME,
            join_path(dir, DIRECTIVE_FILE_NAME),
            scan.directive_present,
            false,
        );
        Ok(ConfigFiles { config_file, agents_file, system_file, directive_file, settings, model })
    }

    pub fn config_file(&self) -> (r: ConfigFile)
        ensures
            r@ == self@.config_file,
    {
        self.config_file.duplicate()
    }

    pub fn agents_file(&self) -> (r: ConfigFile)
        ensures
            r@ == self@.agents_file,
    {
        self.agents_file.duplicate()
    }

    pub fn system_file(&self) -> (r: ConfigFile)
        ensures
            r@ == self@.system_file,
    {
        self.system_file.duplicate()
    }

    /// The optional opening instruction. Present means the agent starts on its
    /// own; absent means it waits for the user's first message.
    pub fn directive_file(&self) -> (r: ConfigFile)
        ensures
            r@ == self@.directive_file,
    {
        self.directive_file.duplicate()
    }

    /// The agent's own settings, read out of `config.json`.
    pub fn settings(&self) -> (r: AgentSettings)
        ensures
            r@ == self@.settings,
    {
        self.settings.duplicate()
    }

    /// The model the agent runs on, as named by its `config.json`.
    pub fn model(&self) -> (r: Model)
        ensures
            r@ == self@.model,
    {
        self.model.duplicate()
    }

    /// The most requests the agent may make to the model in one turn.
    pub fn agent_max_iterations(&self) -> (r: u32)
        ensures
            r == self@.settings.agent_max_iterations,
    {
        self.settings.agent_max_iterations
    }

    /// The `tools` block of `config.json`.
    pub fn tool_settings(&self) -> (r: ToolSettings)
        ensures
            r@ == self@.settings.tools,
    {
        self.settings.tools.duplicate()
    }

    pub fn files(&self) -> (r: Vec<ConfigFile>)
        ensures
            r@.map_values(|f: ConfigFile| f@) == files_of(self@),
    {
        let mut r: Vec<ConfigFile> = Vec::new();
        r.push(self.config_file.duplicate());
        r.push(self.system_file.duplicate());
        r.push(self.agents_file.duplicate());
        r.push(self.directive_file.duplicate());
        assert(r@.map_values(|f: ConfigFile| f@) =~= files_of(self@));
        r
    }

    /// The first required file that isn't there, if any.
    pub fn missing_file(&self) -> (r: Option<ConfigFile>)
        ensures
            match r {
                Some(f) => first_missing(files_of(self@), 0) == Some(f@),
                None => first_missing(files_of(self@), 0) is None,
            },
    {
        let files = self.files();
        let ghost fs = files_of(self@);
        let mut i: usize = 0;
        while i < files.len()
            invariant
                0 <= i <= 4,
                files@.len() == 4,
                files@.map_values(|f: ConfigFile| f@) == fs,
                fs == files_of(self@),
                first_missing(fs, 0) == first_missing(fs, i as int),
            decreases 4 - i,
        {
            assert(files@[i as int]@ == fs[i as int]);
            if files[i].missing() {
                assert(first_missing(fs, i as int) == Some(fs[i as int]));
                return Some(files[i].duplicate());
            }
            assert(first_missing(fs, i as int) == first_missing(fs, i + 1));
            i += 1;
        }
        None
    }

    /// Every required file was found, so the agent can be run. `config.json`
    /// is already accounted for: these only exist because it loaded.
    pub fn complete(&self) -> (r: bool)
        ensures
            r == (first_missing(files_of(self@), 0) is None),
    {
        self.missing_file().is_none()
    }

    pub fn duplicate(&self) -> (r: ConfigFiles)
        ensures
            r@ == self@,
    {
        ConfigFiles {
            config_file: self.config_file.duplicate(),
            agents_file: self.agents_file.duplicate(),
            system_file: self.system_file.duplicate(),
            directive_file: self.directive_file.duplicate(),
            settings: self.settings.duplicate(),
            model: self.model.duplicate(),
        }
    }
}

/// `complete` holds exactly when no required file is absent, whichever of
/// the four it would be.
pub proof fn lemma_complete_iff_no_required_file_missing(f: ConfigFilesView)
    ensures
        (first_missing(files_of(f), 0) is None) <==> (forall|i: int|
            0 <= i < 4 ==> !file_missing(#[trigger] files_of(f)[i])),
{
    let fs = files_of(f);
    reveal_with_fuel(first_missing, 5);
    assert(fs.len() == 4);
}

} // verus!
