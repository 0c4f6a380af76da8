use vstd::prelude::*;

verus! {

/// One configured remote server.
#[derive(Debug, Clone, Default)]
pub struct ServerConfig {
    /// The tag: the name that routes this server's events and commands.
    pub name: String,
    pub host: String,
    pub port: u16,
    pub ssl: bool,
    /// Nicknames to try, in order of preference.
    pub nicknames: Option<Vec<String>>,
    pub plugin_whitelist: Option<Vec<String>>,
    pub plugin_blacklist: Option<Vec<String>>,
    pub channel: Option<Vec<ChannelConfig>>,
}

/// A channel to be joined on a server.
#[derive(Debug, Clone)]
pub struct ChannelConfig {
    pub name: String,
    pub key: Option<String>,
    pub plugin_whitelist: Option<Vec<String>>,
    pub plugin_blacklist: Option<Vec<String>>,
}

/// The whole configuration: the servers and where the plugin scripts are.
#[derive(Debug, Clone)]
pub struct Config {
    pub server: Vec<ServerConfig>,
    pub plugin_locations: Vec<String>,
}

/// A configuration that cannot be started.
#[derive(Debug, Clone)]
pub enum ConfigError {
    /// A second server was given a tag that is already in use.
    DuplicateServerTag(String),
    /// The configuration file holds nothing.
    EmptyFile,
}

/// Refuses a configuration text that holds nothing, before it is parsed.
pub fn require_contents(text: &str) -> (r: Result<(), ConfigError>)
    ensures
        r is Ok <==> text@.len() > 0,
        r matches Err(e) ==> e is EmptyFile,
{
    if text.unicode_len() == 0 {
        Err(ConfigError::EmptyFile)
    } else {
        Ok(())
    }
}

impl ServerConfig {
    /// The first candidate nickname, if any is configured.
    pub open spec fn first_nickname(self) -> Option<String> {
        match self.nicknames {
            Some(v) => if v@.len() > 0 { Some(v@[0]) } else { None },
            None => None,
        }
    }
}

} // verus!
