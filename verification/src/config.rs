//! The project's own `config.json`: the OpenRouter credentials and where to
//! reach it.

use vstd::prelude::*;
use vstd::string::*;

use crate::text::{all_space, is_blank};

verus! {

/// Name of the config file Apila expects to find in the project directory.
pub const CONFIG_FILE_NAME: &'static str = "config.json";

/// Why the project's `config.json` could not be used.
#[derive(Debug, Clone)]
pub enum ConfigError {
    /// No file at the path given.
    NotFound(String),
    /// The file could not be read: the reason.
    Io(String),
    /// The file is not the config json: the parser's message.
    Parse(String),
    MissingApiKey,
}

/// What each config error says.
pub open spec fn config_error_text(e: ConfigError) -> Seq<char> {
    match e {
        ConfigError::NotFound(p) => "config file not found: "@ + p@,
        ConfigError::Io(m) => "failed to read config file: "@ + m@,
        ConfigError::Parse(m) => "failed to parse config file: "@ + m@,
        ConfigError::MissingApiKey => "`openrouter_api_key` is missing or empty in the config file"@,
    }
}

impl ConfigError {
    pub fn message(&self) -> (r: String)
        ensures
            r@ == config_error_text(*self),
    {
        match self {
            ConfigError::NotFound(p) => {
                let mut r = "config file not found: ".to_owned();
                r.append(p.as_str());
                r
            },
            ConfigError::Io(m) => {
                let mut r = "failed to read config file: ".to_owned();
                r.append(m.as_str());
                r
            },
            ConfigError::Parse(m) => {
                let mut r = "failed to parse config file: ".to_owned();
                r.append(m.as_str());
                r
            },
            ConfigError::MissingApiKey => "`openrouter_api_key` is missing or empty in the config file".to_owned(),
        }
    }
}

/// The contents of `<project_dir>/config.json`. It carries no `Debug`, so the
/// api key can never reach a log or a panic message through it.
#[derive(Clone)]
pub struct Config {
    pub openrouter_api_key: String,
    /// Overrides the default OpenRouter base url.
    pub openrouter_base_url: Option<String>,
    /// OpenRouter attribution headers.
    pub http_referer: Option<String>,
    pub x_openrouter_title: Option<String>,
}

impl Config {
    /// Checks a parsed `config.json`: the api key must not be blank.
    pub fn validated(self) -> (r: Result<Config, ConfigError>)
        ensures
            all_space(self.openrouter_api_key@) ==> r matches Err(ConfigError::MissingApiKey),
            !all_space(self.openrouter_api_key@) ==> r == Ok::<Config, ConfigError>(self),
    {
        if is_blank(self.openrouter_api_key.as_str()) {
            Err(ConfigError::MissingApiKey)
        } else {
            Ok(self)
        }
    }

    pub fn duplicate(&self) -> (r: Config)
        ensures
            r.openrouter_api_key@ == self.openrouter_api_key@,
            r.openrouter_base_url == self.openrouter_base_url,
            r.http_referer == self.http_referer,
            r.x_openrouter_title == self.x_openrouter_title,
    {
        Config {
            openrouter_api_key: self.openrouter_api_key.clone(),
            openrouter_base_url: match &self.openrouter_base_url {
                Some(u) => Some(u.clone()),
                None => None,
            },
            http_referer: match &self.http_referer {
                Some(u) => Some(u.clone()),
                None => None,
            },
            x_openrouter_title: match &self.x_openrouter_title {
                Some(u) => Some(u.clone()),
                None => None,
            },
        }
    }
}

} // verus!
