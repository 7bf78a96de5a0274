//! What a machine tells the hub about itself.

use vstd::prelude::*;
use crate::agent_config::{Config, DEFAULT_HOME};
use crate::json::{
    member_text, object, text_member, Json, JsonView, Member, MemberView,
};
use crate::models::clone_text;
use crate::text::owned;

verus! {

/// The host name when nothing tells it.
pub const UNKNOWN_HOST: &'static str = "unknown";

/// The platform that the agent reports.
pub const PLATFORM: &'static str = "linux";

/// The directory of the agent's program when it cannot be found.
pub const DEFAULT_LIB_DIR: &'static str = "/usr/local/bin";

/// What comes before the version in the agent's version string.
pub const VERSION_PREFIX: &'static str = "happier/";

/// What a machine tells the hub about itself.
#[derive(Debug, Clone)]
pub struct MachineMetadata {
    pub host: String,
    pub platform: String,
    pub happy_cli_version: String,
    pub display_name: Option<String>,
    pub home_dir: String,
    pub happy_home_dir: String,
    pub happy_lib_dir: String,
}

/// What the machine itself tells of its surroundings.
#[derive(Debug)]
pub struct Surroundings {
    /// `HAPI_HOSTNAME`
    pub hostname_override: Option<String>,
    /// The host name that the system reports.
    pub system_hostname: Option<String>,
    /// `HOME`
    pub home: Option<String>,
    /// The directory of the running program.
    pub program_dir: Option<String>,
    /// The version of the agent.
    pub version: String,
}

/// The text of an optional string, or a default.
pub open spec fn text_or(value: Option<String>, default: Seq<char>) -> Seq<char> {
    match value {
        Some(s) => s@,
        None => default,
    }
}

fn or_default(value: &Option<String>, default: &str) -> (text: String)
    ensures
        text@ == text_or(*value, default@),
{
    match value {
        Some(s) => s.clone(),
        None => owned(default),
    }
}

/// Describes the machine: the host is the override, else what the system
/// reports, else `unknown`; the home directory defaults to `/root` and the
/// program's directory to `/usr/local/bin`.
pub fn build(config: &Config, around: &Surroundings) -> (metadata: MachineMetadata)
    ensures
        metadata.host@ == match around.hostname_override {
            Some(h) => h@,
            None => text_or(around.system_hostname, UNKNOWN_HOST@),
        },
        metadata.platform@ == PLATFORM@,
        metadata.happy_cli_version@ == VERSION_PREFIX@ + around.version@,
        metadata.display_name == config.machine_name,
        metadata.home_dir@ == text_or(around.home, DEFAULT_HOME@),
        metadata.happy_home_dir@ == config.hapi_home@,
        metadata.happy_lib_dir@ == text_or(around.program_dir, DEFAULT_LIB_DIR@),
{
    let host = match &around.hostname_override {
        Some(h) => h.clone(),
        None => or_default(&around.system_hostname, UNKNOWN_HOST),
    };
    let mut version = owned(VERSION_PREFIX);
    version.push_str(around.version.as_str());
    MachineMetadata {
        host,
        platform: owned(PLATFORM),
        happy_cli_version: version,
        display_name: clone_text(&config.machine_name),
        home_dir: or_default(&around.home, DEFAULT_HOME),
        happy_home_dir: config.hapi_home.clone(),
        happy_lib_dir: or_default(&around.program_dir, DEFAULT_LIB_DIR),
    }
}

/// The metadata as the hub reads it. The display name is left out when
/// there is none.
pub open spec fn metadata_json(m: MachineMetadata) -> JsonView {
    let head = seq![
        text_member("host"@, m.host@),
        text_member("platform"@, m.platform@),
        text_member("happyCliVersion"@, m.happy_cli_version@),
    ];
    let name = match m.display_name {
        Some(n) => seq![text_member("displayName"@, n@)],
        None => Seq::<MemberView>::empty(),
    };
    let tail = seq![
        text_member("homeDir"@, m.home_dir@),
        text_member("happyHomeDir"@, m.happy_home_dir@),
        text_member("happyLibDir"@, m.happy_lib_dir@),
    ];
    JsonView::Object(head + name + tail)
}

impl MachineMetadata {
    /// The metadata as JSON.
    pub fn to_json(&self) -> (j: Json)
        ensures
            j@ == metadata_json(*self),
    {
        let mut members: Vec<Member> = Vec::new();
        members.push(member_text("host", self.host.as_str()));
        members.push(member_text("platform", self.platform.as_str()));
        members.push(member_text("happyCliVersion", self.happy_cli_version.as_str()));
        if let Some(n) = &self.display_name {
            members.push(member_text("displayName", n.as_str()));
        }
        members.push(member_text("homeDir", self.home_dir.as_str()));
        members.push(member_text("happyHomeDir", self.happy_home_dir.as_str()));
        members.push(member_text("happyLibDir", self.happy_lib_dir.as_str()));
        let j = object(members);
        assert(j@->Object_0 =~= metadata_json(*self)->Object_0);
        j
    }
}

} // verus!
