//! Registering the machine with the hub: what is sent, and how often.

use vstd::prelude::*;
use crate::agent_config::Config;
use crate::connection::{doubled, next_backoff, MAX_BACKOFF_SECS, MIN_BACKOFF_SECS};
use crate::json::{
    member_text, member_value, object, text_member, value_member, Json, JsonView, Member,
};
use crate::metadata::{metadata_json, MachineMetadata};
use crate::text::owned;

verus! {

/// How often the registration is tried.
pub const MAX_ATTEMPTS: u32 = 60;

/// How many seconds one attempt may take.
pub const ATTEMPT_TIMEOUT_SECS: u64 = 60;

/// The address of the registration request.
pub fn register_url(api_url: &str) -> (url: String)
    ensures
        url@ == api_url@ + "/cli/machines"@,
{
    let mut url = owned(api_url);
    url.push_str("/cli/machines");
    url
}

/// The value of the `Authorization` header for a token.
pub fn bearer(token: &str) -> (header: String)
    ensures
        header@ == "Bearer "@ + token@,
{
    let mut header = owned("Bearer ");
    header.push_str(token);
    header
}

/// What is sent to register a machine: its id, its metadata and no runner state.
pub open spec fn register_body_of(machine_id: Seq<char>, metadata: MachineMetadata) -> JsonView {
    JsonView::Object(
        seq![
            text_member("id"@, machine_id),
            value_member("metadata"@, metadata_json(metadata)),
            value_member("runnerState"@, JsonView::Null),
        ],
    )
}

/// Builds the body of the registration request.
pub fn register_body(config: &Config, metadata: &MachineMetadata) -> (body: Json)
    ensures
        body@ == register_body_of(config.machine_id@, *metadata),
{
    let mut members: Vec<Member> = Vec::new();
    members.push(member_text("id", config.machine_id.as_str()));
    members.push(member_value("metadata", metadata.to_json()));
    members.push(member_value("runnerState", Json::Null));
    let body = object(members);
    assert(body@->Object_0 =~= register_body_of(config.machine_id@, *metadata)->Object_0);
    body
}

/// What follows an attempt.
#[derive(Debug, Clone, Copy, PartialEq, Eq)]
pub enum RegisterStep {
    /// The machine is registered.
    Done,
    /// Wait this many seconds and try again.
    RetryAfter(u64),
    /// The last attempt failed too.
    GiveUp,
}

/// How far the registration has come.
#[derive(Debug, Clone, Copy, PartialEq, Eq)]
pub struct Registration {
    /// The number of the attempt that is being made, from one.
    pub attempt: u32,
    /// The wait after this attempt, should it fail.
    pub delay_secs: u64,
}

/// The wait after the attempt with this number: one second after the
/// first, twice the wait before after each of the others, thirty at most.
pub open spec fn delay_after(attempt: nat) -> int
    decreases attempt,
{
    if attempt <= 1 {
        MIN_BACKOFF_SECS as int
    } else {
        doubled(delay_after((attempt - 1) as nat))
    }
}

impl Registration {
    /// Whether the state is one that a registration passes through.
    pub open spec fn valid(self) -> bool {
        1 <= self.attempt <= MAX_ATTEMPTS && self.delay_secs == delay_after(self.attempt as nat)
    }

    /// The state before the first attempt.
    pub fn new() -> (r: Self)
        ensures
            r.attempt == 1,
            r.valid(),
    {
        Registration { attempt: 1, delay_secs: MIN_BACKOFF_SECS }
    }

    /// Decides what follows an attempt. After a failure the registration is
    /// tried again, up to [`MAX_ATTEMPTS`] times in all.
    pub fn on_result(&mut self, success: bool) -> (step: RegisterStep)
        ensures
            success ==> step == RegisterStep::Done && *final(self) == *old(self),
            !success && old(self).attempt < MAX_ATTEMPTS ==> step == RegisterStep::RetryAfter(
                old(self).delay_secs,
            ) && final(self).attempt == old(self).attempt + 1 && final(self).delay_secs == doubled(
                old(self).delay_secs as int,
            ),
            !success && old(self).attempt >= MAX_ATTEMPTS ==> step == RegisterStep::GiveUp
                && *final(self) == *old(self),
            old(self).valid() ==> final(self).valid(),
    {
        if success {
            RegisterStep::Done
        } else if self.attempt < MAX_ATTEMPTS {
            let wait = self.delay_secs;
            self.attempt = self.attempt + 1;
            self.delay_secs = next_backoff(wait);
            RegisterStep::RetryAfter(wait)
        } else {
            RegisterStep::GiveUp
        }
    }
}

/// No wait is shorter than one second or longer than thirty, and waits
/// never shrink from one attempt to the next.
pub proof fn lemma_delays_are_bounded(attempt: nat)
    ensures
        MIN_BACKOFF_SECS <= delay_after(attempt) <= MAX_BACKOFF_SECS,
        delay_after(attempt) <= delay_after(attempt + 1),
    decreases attempt,
{
    if attempt > 1 {
        lemma_delays_are_bounded((attempt - 1) as nat);
    }
}

} // verus!
