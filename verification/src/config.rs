use crate::strutil::{trim_spaces, trimmed};
use vstd::prelude::*;

verus! {

/// The error a configuration builder reports when no credential can be found.
#[derive(Debug, Clone, Copy, PartialEq, Eq, Structural)]
pub enum ConfigError {
    MissingCredential,
}

/// Process-wide configuration: built once at startup, never mutated, and
/// passed by reference to every component that needs it.
#[derive(Debug, Clone)]
pub struct Config {
    pub bearer_token: String,
    pub port: String,
    pub url: String,
    pub valid_extensions: Vec<String>,
    pub directory: String,
}

/// Mathematical model of a `Config`: each field as a sequence of characters.
pub struct ConfigView {
    pub bearer_token: Seq<char>,
    pub port: Seq<char>,
    pub url: Seq<char>,
    pub valid_extensions: Seq<Seq<char>>,
    pub directory: Seq<char>,
}

impl View for Config {
    type V = ConfigView;

    open spec fn view(&self) -> ConfigView {
        ConfigView {
            bearer_token: self.bearer_token@,
            port: self.port@,
            url: self.url@,
            valid_extensions: self.valid_extensions.deep_view(),
            directory: self.directory@,
        }
    }
}

/// The extensions that are tracked when no others are configured.
pub open spec fn default_extensions() -> Seq<Seq<char>> {
    seq!["script"@, "js"@, "ns"@, "txt"@]
}

/// The fields that every freshly built configuration shares: local server,
/// port 9990, and the default extension set.
pub open spec fn has_default_server_fields(c: ConfigView) -> bool {
    &&& c.port == "9990"@
    &&& c.url == "http://localhost"@
    &&& c.valid_extensions == default_extensions()
}

impl Default for Config {
    /// The built-in settings: a placeholder token, the local server on port
    /// 9990, the four default extensions, and an empty directory.
    fn default() -> (c: Config)
        ensures
            c@.bearer_token == "token"@,
            c@.directory == Seq::<char>::empty(),
            has_default_server_fields(c@),
    {
        let mut valid_extensions: Vec<String> = Vec::new();
        valid_extensions.push(String::from_str("script"));
        valid_extensions.push(String::from_str("js"));
        valid_extensions.push(String::from_str("ns"));
        valid_extensions.push(String::from_str("txt"));
        proof {
            assert(valid_extensions.deep_view() =~= default_extensions());
        }
        Config {
            bearer_token: String::from_str("token"),
            port: String::from_str("9990"),
            url: String::from_str("http://localhost"),
            valid_extensions,
            directory: String::new(),
        }
    }
}

/// A configuration for exercising the library without touching the real
/// environment: the default settings with the directory pinned.
pub fn get_mock_config() -> (r: Result<Config, ConfigError>)
    ensures
        r matches Ok(c) && c@.bearer_token == "token"@ && c@.directory == "/one/two/"@
            && has_default_server_fields(c@),
{
    let mut c = Config::default();
    c.directory = String::from_str("/one/two/");
    Ok(c)
}

/// Build the startup configuration from plain values resolved at the edge:
/// the watched directory, the content of a `token` file when one was
/// readable, and a token passed on the command line.  The file wins when
/// both are present, and its content is taken trimmed; with neither, the
/// missing credential is a fatal configuration error.
pub fn resolve_config(directory: String, token_file: Option<String>, arg_token: Option<String>)
    -> (r: Result<Config, ConfigError>)
    ensures
        r.is_ok() == (token_file is Some || arg_token is Some),
        token_file is None && arg_token is None ==> (r matches Err(e) && e
            == ConfigError::MissingCredential),
        r matches Ok(c) ==> c@.directory == directory@ && has_default_server_fields(c@) && (
        match token_file {
            Some(t) => c@.bearer_token == trimmed(t@),
            None => arg_token matches Some(a) && c@.bearer_token == a@,
        }),
{
    let token: String = match token_file {
        Some(t) => trim_spaces(t.as_str()),
        None => match arg_token {
            Some(a) => a,
            None => {
                return Err(ConfigError::MissingCredential);
            },
        },
    };
    let mut c = Config::default();
    c.bearer_token = token;
    c.directory = directory;
    Ok(c)
}

} // verus!
