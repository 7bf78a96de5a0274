//! How the machine agent finds its settings: the environment first, then
//! the settings file, then the defaults.

use vstd::prelude::*;
use crate::text::{chars_of, owned};

verus! {

/// The hub's address when neither the environment nor the settings name one.
pub const DEFAULT_API_URL: &'static str = "http://localhost:3006";

/// The home directory when the environment names none.
pub const DEFAULT_HOME: &'static str = "/root";

/// The name of the agent's directory under the home directory.
pub const HAPI_DIR: &'static str = ".hapi";

/// The name of the settings file in the agent's directory.
pub const SETTINGS_FILE: &'static str = "settings.json";

/// What the agent runs with.
#[derive(Debug)]
pub struct Config {
    pub api_url: String,
    pub token: String,
    pub machine_id: String,
    pub machine_name: Option<String>,
    pub hapi_home: String,
}

/// What the settings file holds of the things the agent reads. Whatever
/// else the file holds is kept by the caller.
#[derive(Debug)]
pub struct Settings {
    pub machine_id: Option<String>,
    pub cli_api_token: Option<String>,
    pub api_url: Option<String>,
}

/// The variables of the environment that the agent reads.
#[derive(Debug)]
pub struct Environment {
    /// `HAPI_HOME`
    pub hapi_home: Option<String>,
    /// `HOME`
    pub home: Option<String>,
    /// `HAPI_API_URL`
    pub api_url: Option<String>,
    /// `CLI_API_TOKEN`
    pub token: Option<String>,
    /// `HAPI_MACHINE_NAME`
    pub machine_name: Option<String>,
}

/// Why the agent cannot start.
#[derive(Debug, Clone, Copy, PartialEq, Eq)]
pub enum ConfigError {
    /// Neither the environment nor the settings hold an API token.
    MissingToken,
}

/// What was loaded: the configuration, and the settings to write back when
/// a machine id had to be made.
#[derive(Debug)]
pub struct Loaded {
    pub config: Config,
    pub write_settings: Option<Settings>,
}

/// `name` under the directory `base`: the two joined by a slash, unless the
/// base is empty or ends with one.
pub open spec fn joined_path(base: Seq<char>, name: Seq<char>) -> Seq<char> {
    if base.len() == 0 || base.last() == '/' {
        base + name
    } else {
        base + seq!['/'] + name
    }
}

/// Joins a name to a directory.
pub fn join_path(base: &str, name: &str) -> (path: String)
    ensures
        path@ == joined_path(base@, name@),
{
    let chars = chars_of(base);
    let mut path = owned(base);
    if chars.len() > 0 && chars[chars.len() - 1] != '/' {
        path.push('/');
    }
    path.push_str(name);
    path
}

/// The first of two optional values that is there.
pub open spec fn first_of(a: Option<String>, b: Option<String>) -> Option<String> {
    match a {
        Some(_) => a,
        None => b,
    }
}

/// The agent's directory: `HAPI_HOME`, else `.hapi` under `HOME`, else
/// `.hapi` under `/root`.
pub open spec fn hapi_home_of(env: Environment) -> Seq<char> {
    match env.hapi_home {
        Some(h) => h@,
        None => joined_path(
            match env.home {
                Some(h) => h@,
                None => DEFAULT_HOME@,
            },
            HAPI_DIR@,
        ),
    }
}

/// Finds the agent's directory.
pub fn hapi_home(env: &Environment) -> (dir: String)
    ensures
        dir@ == hapi_home_of(*env),
{
    match &env.hapi_home {
        Some(h) => h.clone(),
        None => {
            let home = match &env.home {
                Some(h) => h.as_str(),
                None => DEFAULT_HOME,
            };
            join_path(home, HAPI_DIR)
        },
    }
}

/// Where the settings file lies.
pub fn settings_path(hapi_home: &str) -> (path: String)
    ensures
        path@ == joined_path(hapi_home@, SETTINGS_FILE@),
{
    join_path(hapi_home, SETTINGS_FILE)
}

/// `Uuid::new_v4` of `uuid`, displayed: a random identifier in the
/// hyphenated form, which is thirty-six characters long. The crate unwinds
/// when the operating system hands out no random bytes; like a failed
/// allocation, no precondition can leave that out.
#[verifier::external_body]
fn fresh_machine_id() -> (id: String)
    ensures
        id@.len() == 36,
{
    uuid::Uuid::new_v4().to_string()
}

/// Whether the settings hold a machine id that can be used.
pub open spec fn has_machine_id(settings: Settings) -> bool {
    settings.machine_id matches Some(id) && id@.len() > 0
}

/// Resolves the agent's configuration.
///
/// The hub's address is taken from the environment, else from the settings,
/// else it is the default. The token is taken from the environment, else
/// from the settings; without one the agent cannot start. The machine id
/// is the one of the settings; when they hold none, or an empty one, a new
/// one is made and the settings are to be written back with it.
pub fn load(env: Environment, settings: Settings) -> (r: Result<Loaded, ConfigError>)
    ensures
        first_of(env.token, settings.cli_api_token) is None <==> r == Err::<Loaded, ConfigError>(
            ConfigError::MissingToken,
        ),
        r matches Ok(loaded) ==> {
            &&& loaded.config.hapi_home@ == hapi_home_of(env)
            &&& loaded.config.api_url@ == match first_of(env.api_url, settings.api_url) {
                Some(u) => u@,
                None => DEFAULT_API_URL@,
            }
            &&& Some(loaded.config.token) == first_of(env.token, settings.cli_api_token)
            &&& loaded.config.machine_name == env.machine_name
            &&& loaded.config.machine_id@.len() > 0
            &&& has_machine_id(settings) ==> Some(loaded.config.machine_id) == settings.machine_id
                && loaded.write_settings is None
            &&& !has_machine_id(settings) ==> (loaded.write_settings matches Some(s) && s.machine_id
                == Some(loaded.config.machine_id) && s.cli_api_token == settings.cli_api_token
                && s.api_url == settings.api_url)
        },
{
    let dir = hapi_home(&env);
    let api_url = match env.api_url {
        Some(u) => u,
        None => match &settings.api_url {
            Some(u) => u.clone(),
            None => owned(DEFAULT_API_URL),
        },
    };
    let token = match env.token {
        Some(t) => t,
        None => match &settings.cli_api_token {
            Some(t) => t.clone(),
            None => {
                return Err(ConfigError::MissingToken);
            },
        },
    };
    let usable = match &settings.machine_id {
        Some(id) => !id.as_str().is_empty(),
        None => false,
    };
    if usable {
        let machine_id = match &settings.machine_id {
            Some(id) => id.clone(),
            None => String::new(),
        };
        Ok(
            Loaded {
                config: Config {
                    api_url,
                    token,
                    machine_id,
                    machine_name: env.machine_name,
                    hapi_home: dir,
                },
                write_settings: None,
            },
        )
    } else {
        let machine_id = fresh_machine_id();
        let updated = Settings {
            machine_id: Some(machine_id.clone()),
            cli_api_token: settings.cli_api_token,
            api_url: settings.api_url,
        };
        Ok(
            Loaded {
                config: Config {
                    api_url,
                    token,
                    machine_id,
                    machine_name: env.machine_name,
                    hapi_home: dir,
                },
                write_settings: Some(updated),
            },
        )
    }
}

} // verus!
