//! The configuration.

use vstd::prelude::*;
use crate::expression::Listener;

verus! {

/// Where the configuration file is, below the directory for configuration files.
pub const CONFIG_FILE: &'static str = "buzz/config.toml";

/// Why `toml` could not parse a text.
#[verifier::external_type_specification]
#[verifier::external_body]
pub struct ExParseError(toml::de::Error);

/// The configuration.
#[derive(Debug)]
pub struct Config {
    /// The path of the socket that the server listens on.
    pub socket_path: String,
    /// The conditions that the configuration names. They are only read from it so far.
    pub listeners: Option<Vec<Listener>>,
}

/// Why there is no configuration.
#[derive(Debug)]
pub enum ConfigError {
    /// There is no configuration file.
    NotFound,
    /// The configuration file could not be read as one, and why.
    ParseError(toml::de::Error),
}

/// What was found at the path of a configuration file.
#[derive(Debug)]
pub enum ConfigFile {
    /// There is no file.
    Missing,
    /// The file is no configuration, and why.
    Malformed(toml::de::Error),
    /// The file is a configuration, which may leave things out.
    Settings { socket_path: Option<String>, listeners: Option<Vec<Listener>> },
}

/// The path of the socket where the configuration names none.
pub fn default_socket_path() -> (path: String)
    ensures
        path@ == "config.toml"@,
{
    "config.toml".to_owned()
}

/// Whether a configuration, or why there is none, is what a file holds.
pub open spec fn configures(file: ConfigFile, config: Result<Config, ConfigError>) -> bool {
    match file {
        ConfigFile::Missing => config matches Err(ConfigError::NotFound),
        ConfigFile::Malformed(reason) => config == Err::<Config, ConfigError>(
            ConfigError::ParseError(reason),
        ),
        ConfigFile::Settings { socket_path, listeners } => {
            &&& config matches Ok(read)
            &&& read.listeners == listeners
            &&& read.socket_path@ == match socket_path {
                Some(path) => path@,
                None => "config.toml"@,
            }
        },
    }
}

impl Config {
    /// The configuration that a file holds.
    pub fn from_file(file: ConfigFile) -> (config: Result<Config, ConfigError>)
        ensures
            configures(file, config),
    {
        match file {
            ConfigFile::Missing => Err(ConfigError::NotFound),
            ConfigFile::Malformed(reason) => Err(ConfigError::ParseError(reason)),
            ConfigFile::Settings { socket_path, listeners } => {
                let socket_path = match socket_path {
                    Some(path) => path,
                    None => default_socket_path(),
                };
                Ok(Config { socket_path, listeners })
            },
        }
    }
}

/// There is a configuration if and only if the file has settings, and it has all of them: the
/// path of the socket as it stands there, whatever it is, and the conditions. Only a path that is
/// left out is another.
pub proof fn lemma_settings_are_kept(file: ConfigFile, config: Result<Config, ConfigError>)
    requires
        configures(file, config),
    ensures
        config is Ok <==> file is Settings,
        file matches ConfigFile::Settings { socket_path: Some(path), listeners: _ }
            ==> config->Ok_0.socket_path@ == path@,
        file matches ConfigFile::Settings { socket_path: None, listeners: _ }
            ==> config->Ok_0.socket_path@ == seq![
            'c',
            'o',
            'n',
            'f',
            'i',
            'g',
            '.',
            't',
            'o',
            'm',
            'l',
        ],
        file matches ConfigFile::Settings { socket_path: _, listeners }
            ==> config->Ok_0.listeners == listeners,
        config == Err::<Config, ConfigError>(ConfigError::NotFound) <==> file is Missing,
        file matches ConfigFile::Malformed(reason) ==> config == Err::<Config, ConfigError>(
            ConfigError::ParseError(reason),
        ),
{
    reveal_strlit("config.toml");
    assert("config.toml"@ =~= seq!['c', 'o', 'n', 'f', 'i', 'g', '.', 't', 'o', 'm', 'l']);
}

} // verus!
