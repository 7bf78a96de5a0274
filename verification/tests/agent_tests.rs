use hapi_core::agent_config::{
    hapi_home, join_path, load, settings_path, Config, ConfigError, Environment, Settings,
    DEFAULT_API_URL,
};
use hapi_core::metadata::{build, MachineMetadata, Surroundings};
use hapi_core::register::{
    bearer, register_body, register_url, RegisterStep, Registration, ATTEMPT_TIMEOUT_SECS,
    MAX_ATTEMPTS,
};

fn env() -> Environment {
    Environment { hapi_home: None, home: None, api_url: None, token: None, machine_name: None }
}

fn settings() -> Settings {
    Settings { machine_id: None, cli_api_token: None, api_url: None }
}

fn some(s: &str) -> Option<String> {
    Some(s.to_string())
}

#[test]
fn paths_are_joined_with_one_slash() {
    assert_eq!(join_path("/root", ".hapi"), "/root/.hapi");
    assert_eq!(join_path("/root/", ".hapi"), "/root/.hapi");
    assert_eq!(join_path("", ".hapi"), ".hapi");
    assert_eq!(settings_path("/h/.hapi"), "/h/.hapi/settings.json");
}

#[test]
fn hapi_home_comes_from_the_environment() {
    assert_eq!(hapi_home(&env()), "/root/.hapi");
    assert_eq!(hapi_home(&Environment { home: some("/home/u"), ..env() }), "/home/u/.hapi");
    assert_eq!(
        hapi_home(&Environment { hapi_home: some("/data/hapi"), home: some("/home/u"), ..env() }),
        "/data/hapi"
    );
}

#[test]
fn load_fails_without_a_token() {
    let r = load(env(), Settings { machine_id: some("m"), ..settings() });
    assert!(matches!(r, Err(ConfigError::MissingToken)));
}

#[test]
fn load_prefers_the_environment() {
    let e = Environment {
        api_url: some("http://env"),
        token: some("env-token"),
        machine_name: some("box"),
        ..env()
    };
    let s = Settings { machine_id: some("m-1"), cli_api_token: some("file-token"), api_url: some("http://file") };
    let loaded = load(e, s).unwrap();
    assert_eq!(loaded.config.api_url, "http://env");
    assert_eq!(loaded.config.token, "env-token");
    assert_eq!(loaded.config.machine_id, "m-1");
    assert_eq!(loaded.config.machine_name.as_deref(), Some("box"));
    assert_eq!(loaded.config.hapi_home, "/root/.hapi");
    assert!(loaded.write_settings.is_none());
}

#[test]
fn load_falls_back_to_settings_and_defaults() {
    let s = Settings { machine_id: some("m-1"), cli_api_token: some("file-token"), api_url: some("http://file") };
    let loaded = load(env(), s).unwrap();
    assert_eq!(loaded.config.api_url, "http://file");
    assert_eq!(loaded.config.token, "file-token");
    let t = Settings { machine_id: some("m-1"), cli_api_token: some("file-token"), api_url: None };
    assert_eq!(load(env(), t).unwrap().config.api_url, DEFAULT_API_URL);
    assert_eq!(DEFAULT_API_URL, "http://localhost:3006");
}

#[test]
fn load_makes_a_machine_id_when_there_is_none() {
    for missing in [None, some("")] {
        let s = Settings { machine_id: missing, cli_api_token: some("tok"), api_url: some("http://file") };
        let loaded = load(env(), s).unwrap();
        let id = loaded.config.machine_id.clone();
        assert_eq!(id.len(), 36);
        assert_eq!(id.matches('-').count(), 4);
        let written = loaded.write_settings.unwrap();
        assert_eq!(written.machine_id, Some(id));
        assert_eq!(written.cli_api_token.as_deref(), Some("tok"));
        assert_eq!(written.api_url.as_deref(), Some("http://file"));
    }
    let a = load(Environment { token: some("t"), ..env() }, settings()).unwrap().config.machine_id;
    let b = load(Environment { token: some("t"), ..env() }, settings()).unwrap().config.machine_id;
    assert_ne!(a, b);
}

fn config() -> Config {
    Config {
        api_url: "http://hub".to_string(),
        token: "tok".to_string(),
        machine_id: "m-1".to_string(),
        machine_name: some("Workstation"),
        hapi_home: "/home/u/.hapi".to_string(),
    }
}

fn around() -> Surroundings {
    Surroundings {
        hostname_override: None,
        system_hostname: some("sys"),
        home: some("/home/u"),
        program_dir: some("/opt/bin"),
        version: "0.3.1".to_string(),
    }
}

#[test]
fn metadata_describes_the_machine() {
    let m = build(&config(), &around());
    assert_eq!(m.host, "sys");
    assert_eq!(m.platform, "linux");
    assert_eq!(m.happy_cli_version, "happier/0.3.1");
    assert_eq!(m.display_name.as_deref(), Some("Workstation"));
    assert_eq!(m.home_dir, "/home/u");
    assert_eq!(m.happy_home_dir, "/home/u/.hapi");
    assert_eq!(m.happy_lib_dir, "/opt/bin");
    let o = build(&config(), &Surroundings { hostname_override: some("named"), ..around() });
    assert_eq!(o.host, "named");
}

#[test]
fn metadata_falls_back_to_defaults() {
    let bare = Surroundings {
        hostname_override: None,
        system_hostname: None,
        home: None,
        program_dir: None,
        version: String::new(),
    };
    let m = build(&Config { machine_name: None, ..config() }, &bare);
    assert_eq!(m.host, "unknown");
    assert_eq!(m.home_dir, "/root");
    assert_eq!(m.happy_lib_dir, "/usr/local/bin");
    assert_eq!(m.happy_cli_version, "happier/");
    assert_eq!(m.display_name, None);
}

#[test]
fn metadata_is_written_with_the_hubs_names() {
    let m: MachineMetadata = build(&config(), &around());
    assert_eq!(
        m.to_json().render(),
        "{\"displayName\":\"Workstation\",\"happyCliVersion\":\"happier/0.3.1\",\"happyHomeDir\":\"/home/u/.hapi\",\"happyLibDir\":\"/opt/bin\",\"homeDir\":\"/home/u\",\"host\":\"sys\",\"platform\":\"linux\"}"
    );
    let unnamed = build(&Config { machine_name: None, ..config() }, &around());
    assert!(unnamed.to_json().get("displayName").is_none());
    assert_eq!(unnamed.to_json().str_at("host"), Some("sys"));
}

#[test]
fn registration_request_names_the_machine() {
    assert_eq!(register_url("http://hub"), "http://hub/cli/machines");
    assert_eq!(bearer("tok"), "Bearer tok");
    let m = build(&Config { machine_name: None, ..config() }, &around());
    let body = register_body(&config(), &m);
    assert_eq!(body.str_at("id"), Some("m-1"));
    assert!(matches!(body.get("runnerState"), Some(hapi_core::json::Json::Null)));
    assert_eq!(body.get("metadata").unwrap().render(), m.to_json().render());
}

#[test]
fn registration_retries_with_growing_waits() {
    assert_eq!(MAX_ATTEMPTS, 60);
    assert_eq!(ATTEMPT_TIMEOUT_SECS, 60);
    let mut r = Registration::new();
    let mut waits = Vec::new();
    let mut attempts = 1;
    loop {
        match r.on_result(false) {
            RegisterStep::RetryAfter(secs) => {
                waits.push(secs);
                attempts += 1;
            }
            RegisterStep::GiveUp => break,
            RegisterStep::Done => panic!("a failure is no success"),
        }
    }
    assert_eq!(attempts, 60);
    assert_eq!(waits.len(), 59);
    assert_eq!(&waits[..7], &[1, 2, 4, 8, 16, 30, 30]);
    assert!(waits[7..].iter().all(|w| *w == 30));
    assert_eq!(r.on_result(false), RegisterStep::GiveUp);
}

#[test]
fn registration_ends_on_success() {
    let mut r = Registration::new();
    assert_eq!(r.on_result(true), RegisterStep::Done);
    assert_eq!(r.attempt, 1);
    assert_eq!(r.on_result(false), RegisterStep::RetryAfter(1));
    assert_eq!(r.on_result(false), RegisterStep::RetryAfter(2));
    assert_eq!(r.on_result(true), RegisterStep::Done);
    assert_eq!(r.attempt, 3);
}
