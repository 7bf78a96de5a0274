//! What the agent says to the hub when it connects, what it understands of
//! the hub's events, and how long it waits before it connects again.

use vstd::prelude::*;
use crate::json::{
    member_number, member_text, number_member, object, text_member, Json, JsonView, Member,
    MemberView,
};
use crate::text::{owned, str_eq};

verus! {

/// The namespace that machine agents join.
pub const NAMESPACE: &'static str = "/cli";

/// Every how many seconds the agent tells the hub that it is alive.
pub const KEEP_ALIVE_SECS: u64 = 20;

/// For how many seconds the agent waits for the hub to accept its initial state.
pub const INITIAL_STATE_TIMEOUT_SECS: u64 = 10;

/// The shortest wait before the agent connects again, in seconds.
pub const MIN_BACKOFF_SECS: u64 = 1;

/// The longest wait before the agent connects again, in seconds.
pub const MAX_BACKOFF_SECS: u64 = 30;

/// The host that a tunnel leads to when the hub names none.
pub const DEFAULT_TUNNEL_HOST: &'static str = "127.0.0.1";

/// An event that the socket forwards to the agent's main loop.
#[derive(Debug)]
pub enum SocketEvent {
    TunnelOpen { tunnel_id: String, host: Option<String>, port: u16 },
    TunnelData { tunnel_id: String, data: String },
    TunnelClose { tunnel_id: String },
    Disconnected,
}

/// What a [`SocketEvent`] holds, as mathematical values.
pub enum SocketEventView {
    TunnelOpen { tunnel_id: Seq<char>, host: Option<Seq<char>>, port: int },
    TunnelData { tunnel_id: Seq<char>, data: Seq<char> },
    TunnelClose { tunnel_id: Seq<char> },
    Disconnected,
}

impl View for SocketEvent {
    type V = SocketEventView;

    open spec fn view(&self) -> SocketEventView {
        match self {
            SocketEvent::TunnelOpen { tunnel_id, host, port } => SocketEventView::TunnelOpen {
                tunnel_id: tunnel_id@,
                host: match host {
                    Some(h) => Some(h@),
                    None => None,
                },
                port: *port as int,
            },
            SocketEvent::TunnelData { tunnel_id, data } => SocketEventView::TunnelData {
                tunnel_id: tunnel_id@,
                data: data@,
            },
            SocketEvent::TunnelClose { tunnel_id } => SocketEventView::TunnelClose {
                tunnel_id: tunnel_id@,
            },
            SocketEvent::Disconnected => SocketEventView::Disconnected,
        }
    }
}

/// The port that an event names: the low sixteen bits of its `port` when
/// that is a non-negative integer, zero otherwise.
pub open spec fn port_of(data: JsonView) -> int {
    match data.get("port"@) {
        Some(p) => match p.as_u64() {
            Some(n) => n as int % 65536,
            None => 0,
        },
        None => 0,
    }
}

/// What an event of the hub means to the agent. Only the three tunnel
/// events are understood; one without a tunnel id, or an open without a
/// port, is dropped.
pub open spec fn decoded(event: Seq<char>, data: JsonView) -> Option<SocketEventView> {
    let tunnel_id = data.str_or_empty("tunnelId"@);
    if event == "tunnel:open"@ {
        if tunnel_id.len() == 0 || port_of(data) == 0 {
            None
        } else {
            Some(
                SocketEventView::TunnelOpen {
                    tunnel_id,
                    host: data.str_at("host"@),
                    port: port_of(data),
                },
            )
        }
    } else if event == "tunnel:data"@ {
        if tunnel_id.len() == 0 {
            None
        } else {
            Some(SocketEventView::TunnelData { tunnel_id, data: data.str_or_empty("data"@) })
        }
    } else if event == "tunnel:close"@ {
        if tunnel_id.len() == 0 {
            None
        } else {
            Some(SocketEventView::TunnelClose { tunnel_id })
        }
    } else {
        None
    }
}

fn text_or_empty(data: &Json, key: &str) -> (text: String)
    ensures
        text@ == data@.str_or_empty(key@),
{
    match data.str_at(key) {
        Some(s) => owned(s),
        None => String::new(),
    }
}

/// Turns an event of the hub into an event for the agent's main loop.
pub fn decode_event(event: &str, data: &Json) -> (decoded_event: Option<SocketEvent>)
    ensures
        match decoded_event {
            Some(e) => decoded(event@, data@) == Some(e@),
            None => decoded(event@, data@) is None,
        },
{
    let tunnel_id = text_or_empty(data, "tunnelId");
    if str_eq(event, "tunnel:open") {
        let port: u16 = match data.get("port") {
            Some(p) => match p.as_u64() {
                Some(n) => (n % 65536) as u16,
                None => 0,
            },
            None => 0,
        };
        let host = match data.str_at("host") {
            Some(h) => Some(owned(h)),
            None => None,
        };
        if tunnel_id.as_str().is_empty() || port == 0 {
            None
        } else {
            Some(SocketEvent::TunnelOpen { tunnel_id, host, port })
        }
    } else if str_eq(event, "tunnel:data") {
        let payload = text_or_empty(data, "data");
        if tunnel_id.as_str().is_empty() {
            None
        } else {
            Some(SocketEvent::TunnelData { tunnel_id, data: payload })
        }
    } else if str_eq(event, "tunnel:close") {
        if tunnel_id.as_str().is_empty() {
            None
        } else {
            Some(SocketEvent::TunnelClose { tunnel_id })
        }
    } else {
        None
    }
}

/// The credentials with which a machine joins the namespace.
pub open spec fn auth_of(token: Seq<char>, machine_id: Seq<char>) -> JsonView {
    JsonView::Object(
        seq![
            text_member("token"@, token),
            text_member("clientType"@, "machine-scoped"@),
            text_member("machineId"@, machine_id),
        ],
    )
}

/// Builds the credentials with which a machine joins the namespace.
pub fn auth_payload(token: &str, machine_id: &str) -> (auth: Json)
    ensures
        auth@ == auth_of(token@, machine_id@),
{
    let mut members: Vec<Member> = Vec::new();
    members.push(member_text("token", token));
    members.push(member_text("clientType", "machine-scoped"));
    members.push(member_text("machineId", machine_id));
    let auth = object(members);
    assert(auth@->Object_0 =~= auth_of(token@, machine_id@)->Object_0);
    auth
}

/// The state that a machine reports when it has connected: it is running
/// since `started_at`, and this is the first version of its state.
pub open spec fn initial_state_of(machine_id: Seq<char>, started_at: int) -> JsonView {
    JsonView::Object(
        seq![
            text_member("machineId"@, machine_id),
            MemberView {
                key: "runnerState"@,
                value: JsonView::Object(
                    seq![
                        text_member("status"@, "running"@),
                        number_member("startedAt"@, started_at),
                    ],
                ),
            },
            number_member("expectedVersion"@, 0),
        ],
    )
}

/// Builds the data of the `machine-update-state` event that follows a connect.
pub fn initial_state_payload(machine_id: &str, started_at_ms: u64) -> (state: Json)
    ensures
        state@ == initial_state_of(machine_id@, started_at_ms as int),
{
    let mut runner: Vec<Member> = Vec::new();
    runner.push(member_text("status", "running"));
    runner.push(member_number("startedAt", started_at_ms));
    let runner_state = object(runner);
    assert(runner_state@->Object_0 =~= seq![
        text_member("status"@, "running"@),
        number_member("startedAt"@, started_at_ms as int),
    ]);
    let mut members: Vec<Member> = Vec::new();
    members.push(member_text("machineId", machine_id));
    members.push(Member { key: owned("runnerState"), value: runner_state });
    members.push(member_number("expectedVersion", 0));
    let state = object(members);
    assert(state@->Object_0 =~= initial_state_of(machine_id@, started_at_ms as int)->Object_0);
    state
}

/// The data of a `machine-alive` event.
pub open spec fn alive_of(machine_id: Seq<char>, time: int) -> JsonView {
    JsonView::Object(seq![text_member("machineId"@, machine_id), number_member("time"@, time)])
}

/// Builds the data of a `machine-alive` event.
pub fn keep_alive_payload(machine_id: &str, time_ms: u64) -> (alive: Json)
    ensures
        alive@ == alive_of(machine_id@, time_ms as int),
{
    let mut members: Vec<Member> = Vec::new();
    members.push(member_text("machineId", machine_id));
    members.push(member_number("time", time_ms));
    let alive = object(members);
    assert(alive@->Object_0 =~= alive_of(machine_id@, time_ms as int)->Object_0);
    alive
}

/// The wait that follows a wait of `secs` seconds: twice as long, but no
/// longer than [`MAX_BACKOFF_SECS`].
pub open spec fn doubled(secs: int) -> int {
    if secs * 2 > MAX_BACKOFF_SECS {
        MAX_BACKOFF_SECS as int
    } else {
        secs * 2
    }
}

/// Doubles a wait up to the cap.
pub fn next_backoff(secs: u64) -> (next: u64)
    ensures
        next == doubled(secs as int),
        next <= MAX_BACKOFF_SECS,
{
    if secs > MAX_BACKOFF_SECS / 2 {
        MAX_BACKOFF_SECS
    } else {
        secs * 2
    }
}

/// What happened in the agent's connection loop.
#[derive(Debug, Clone, Copy, PartialEq, Eq)]
pub enum LoopEvent {
    /// The connect failed.
    ConnectFailed,
    /// The connect succeeded.
    Connected,
    /// The hub did not accept the initial state.
    InitialStateFailed,
    /// The tunnel manager returned: the socket is gone.
    Disconnected,
    /// The process was asked to stop while it was connected.
    SignalWhileConnected,
    /// The process was asked to stop while it was not connected.
    SignalWhileWaiting,
}

/// What the connection loop does next.
#[derive(Debug, Clone, Copy, PartialEq, Eq)]
pub enum LoopAction {
    /// Emit the initial state, then start the keep-alive and the tunnel manager.
    Start,
    /// Wait this many seconds, then connect again.
    RetryAfter(u64),
    /// Leave the namespace, wait this many seconds, then connect again.
    LeaveAndRetryAfter(u64),
    /// Stop the keep-alive, wait this many seconds, then connect again.
    StopKeepAliveAndRetryAfter(u64),
    /// Stop the keep-alive, leave the namespace and exit.
    Shutdown,
    /// Exit.
    Exit,
}

/// The wait before the next connect.
#[derive(Debug, Clone, Copy, PartialEq, Eq)]
pub struct Backoff {
    pub secs: u64,
}

impl Backoff {
    /// The wait with which the agent starts.
    pub fn new() -> (b: Self)
        ensures
            b.secs == MIN_BACKOFF_SECS,
    {
        Backoff { secs: MIN_BACKOFF_SECS }
    }

    /// Decides what the loop does on an event. A successful connect sets
    /// the wait back to [`MIN_BACKOFF_SECS`]; whenever the agent waits, the
    /// wait after that is twice as long, up to [`MAX_BACKOFF_SECS`].
    pub fn on_event(&mut self, event: LoopEvent) -> (action: LoopAction)
        ensures
            match event {
                LoopEvent::Connected => action == LoopAction::Start && final(self).secs
                    == MIN_BACKOFF_SECS,
                LoopEvent::ConnectFailed => action == LoopAction::RetryAfter(old(self).secs)
                    && final(self).secs == doubled(old(self).secs as int),
                LoopEvent::InitialStateFailed => action == LoopAction::LeaveAndRetryAfter(
                    old(self).secs,
                ) && final(self).secs == doubled(old(self).secs as int),
                LoopEvent::Disconnected => action == LoopAction::StopKeepAliveAndRetryAfter(
                    old(self).secs,
                ) && final(self).secs == doubled(old(self).secs as int),
                LoopEvent::SignalWhileConnected => action == LoopAction::Shutdown && final(self).secs
                    == old(self).secs,
                LoopEvent::SignalWhileWaiting => action == LoopAction::Exit && final(self).secs
                    == old(self).secs,
            },
    {
        let wait = self.secs;
        match event {
            LoopEvent::Connected => {
                self.secs = MIN_BACKOFF_SECS;
                LoopAction::Start
            },
            LoopEvent::ConnectFailed => {
                self.secs = next_backoff(wait);
                LoopAction::RetryAfter(wait)
            },
            LoopEvent::InitialStateFailed => {
                self.secs = next_backoff(wait);
                LoopAction::LeaveAndRetryAfter(wait)
            },
            LoopEvent::Disconnected => {
                self.secs = next_backoff(wait);
                LoopAction::StopKeepAliveAndRetryAfter(wait)
            },
            LoopEvent::SignalWhileConnected => LoopAction::Shutdown,
            LoopEvent::SignalWhileWaiting => LoopAction::Exit,
        }
    }
}

/// Waits stay between one second and the cap, whatever happens.
pub proof fn lemma_backoff_stays_in_range(secs: int)
    requires
        MIN_BACKOFF_SECS <= secs <= MAX_BACKOFF_SECS,
    ensures
        MIN_BACKOFF_SECS <= doubled(secs) <= MAX_BACKOFF_SECS,
        doubled(secs) >= secs,
{
}

} // verus!
