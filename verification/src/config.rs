//! The configuration of the search service.

use vstd::prelude::*;
use crate::text::owned;

verus! {

/// The name of the configuration file when the command line names none.
pub const DEFAULT_CONFIG_FILE: &'static str = "hapi-search.toml";

/// The hub's address when there is no configuration file.
pub const DEFAULT_HUB_URL: &'static str = "http://localhost:3006";

/// What the command line tells.
#[derive(Debug)]
pub struct Cli {
    /// The path of the configuration file.
    pub config: String,
}

/// The configuration of the search service.
#[derive(Debug, Clone)]
pub struct Config {
    pub hub: HubConfig,
    pub search: SearchConfig,
    pub meilisearch: MeilisearchConfig,
    pub ollama: OllamaConfig,
}

/// Where the hub is, and the key that opens it.
#[derive(Debug, Clone)]
pub struct HubConfig {
    pub url: String,
    pub api_key: String,
}

/// Where the service listens, links to and keeps its state.
#[derive(Debug, Clone)]
pub struct SearchConfig {
    pub listen: String,
    /// The address under which sessions are linked; the hub's when absent.
    pub hapi_url: Option<String>,
    /// The path of the local state database.
    pub state_db: String,
}

/// Where the search engine is.
#[derive(Debug, Clone)]
pub struct MeilisearchConfig {
    pub url: String,
    pub api_key: Option<String>,
}

/// Where the embedding server is, and the model it runs.
#[derive(Debug, Clone)]
pub struct OllamaConfig {
    pub url: String,
    pub model: String,
}

/// The address on which the service listens by default.
pub fn default_listen() -> (s: String)
    ensures
        s@ == "0.0.0.0:7600"@,
{
    owned("0.0.0.0:7600")
}

/// The path of the state database by default.
pub fn default_state_db() -> (s: String)
    ensures
        s@ == "hapi-search-state.db"@,
{
    owned("hapi-search-state.db")
}

/// The address of the search engine by default.
pub fn default_meilisearch_url() -> (s: String)
    ensures
        s@ == "http://localhost:7700"@,
{
    owned("http://localhost:7700")
}

/// The address of the embedding server by default.
pub fn default_ollama_url() -> (s: String)
    ensures
        s@ == "http://localhost:11434"@,
{
    owned("http://localhost:11434")
}

/// The embedding model by default.
pub fn default_ollama_model() -> (s: String)
    ensures
        s@ == "bge-m3"@,
{
    owned("bge-m3")
}

impl Default for SearchConfig {
    fn default() -> (c: Self)
        ensures
            c.listen@ == "0.0.0.0:7600"@,
            c.hapi_url is None,
            c.state_db@ == "hapi-search-state.db"@,
    {
        SearchConfig { listen: default_listen(), hapi_url: None, state_db: default_state_db() }
    }
}

impl Default for MeilisearchConfig {
    fn default() -> (c: Self)
        ensures
            c.url@ == "http://localhost:7700"@,
            c.api_key is None,
    {
        MeilisearchConfig { url: default_meilisearch_url(), api_key: None }
    }
}

impl Default for OllamaConfig {
    fn default() -> (c: Self)
        ensures
            c.url@ == "http://localhost:11434"@,
            c.model@ == "bge-m3"@,
    {
        OllamaConfig { url: default_ollama_url(), model: default_ollama_model() }
    }
}

impl Cli {
    /// The command line that names no configuration file.
    pub fn new() -> (cli: Self)
        ensures
            cli.config@ == DEFAULT_CONFIG_FILE@,
    {
        Cli { config: owned(DEFAULT_CONFIG_FILE) }
    }
}

impl Config {
    /// The address under which sessions are linked: the one configured for
    /// the search service, else the hub's.
    pub fn hapi_url(&self) -> (url: &str)
        ensures
            url@ == match self.search.hapi_url {
                Some(u) => u@,
                None => self.hub.url@,
            },
    {
        match &self.search.hapi_url {
            Some(u) => u.as_str(),
            None => self.hub.url.as_str(),
        }
    }

    /// The configuration that is used when there is no configuration file:
    /// a hub on this machine, no key, and the defaults for everything else.
    pub fn fallback() -> (c: Self)
        ensures
            c.hub.url@ == DEFAULT_HUB_URL@,
            c.hub.api_key@.len() == 0,
            c.search.listen@ == "0.0.0.0:7600"@,
            c.search.hapi_url is None,
            c.search.state_db@ == "hapi-search-state.db"@,
            c.meilisearch.url@ == "http://localhost:7700"@,
            c.meilisearch.api_key is None,
            c.ollama.url@ == "http://localhost:11434"@,
            c.ollama.model@ == "bge-m3"@,
    {
        Config {
            hub: HubConfig { url: owned(DEFAULT_HUB_URL), api_key: String::new() },
            search: SearchConfig::default(),
            meilisearch: MeilisearchConfig::default(),
            ollama: OllamaConfig::default(),
        }
    }
}

} // verus!
