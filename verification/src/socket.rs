//! The realtime protocol of the machine agent, without the socket.
//!
//! Frames are text. The engine layer knows `0` (open), `1` (close), `2`
//! (ping) and `3` (pong); a frame that starts with `4` carries a packet of
//! the socket layer: a digit for its kind, the namespace, an optional comma,
//! an optional acknowledgement id in decimal, and a JSON payload.

use vstd::prelude::*;
use std::collections::HashMap;
use crate::json::{json_parsed, json_text, Json, JsonView};
use crate::text::{
    chars_of, digit_run, digit_value, digits_value, is_digit, owned, push_i64, signed_decimal,
    str_eq, trimmed,
};

verus! {

/// The kind digit of an event packet.
pub const PACKET_EVENT: i32 = 2;

/// The kind digit of an acknowledgement packet.
pub const PACKET_ACK: i32 = 3;

/// What is left of a packet's text when the namespace, and a comma after
/// it, have been taken from its start; the text itself when it does not
/// start with the namespace.
pub open spec fn after_namespace(rest: Seq<char>, namespace: Seq<char>) -> Seq<char> {
    if namespace.is_prefix_of(rest) {
        let tail = rest.skip(namespace.len() as int);
        if tail.len() > 0 && tail.first() == ',' {
            tail.drop_first()
        } else {
            tail
        }
    } else {
        rest
    }
}

/// A packet of the socket layer.
#[derive(Debug)]
pub struct SioPacket {
    pub packet_type: i32,
    pub id: Option<i64>,
    pub payload: Option<Json>,
}

/// What a [`SioPacket`] holds, as mathematical values.
pub struct PacketView {
    pub packet_type: int,
    pub id: Option<int>,
    pub payload: Option<JsonView>,
}

impl View for SioPacket {
    type V = PacketView;

    open spec fn view(&self) -> PacketView {
        PacketView {
            packet_type: self.packet_type as int,
            id: match self.id {
                Some(n) => Some(n as int),
                None => None,
            },
            payload: match self.payload {
                Some(j) => Some(j@),
                None => None,
            },
        }
    }
}

/// The acknowledgement id that a run of digits denotes: its value when it
/// is written with at least one digit and fits an `i64`.
pub open spec fn ack_id_of(digits: Seq<char>) -> Option<int> {
    if digits.len() > 0 && digits_value(digits) <= i64::MAX {
        Some(digits_value(digits) as int)
    } else {
        None
    }
}

/// The payload that a packet's tail denotes: nothing when the tail is
/// blank, else what it reads as JSON.
pub open spec fn payload_of(tail: Seq<char>) -> Option<JsonView> {
    if trimmed(tail).len() == 0 {
        None
    } else {
        json_parsed(tail)
    }
}

/// The packet that a frame carries, if it carries one: the frame starts
/// with `4` and a kind digit.
pub open spec fn parsed_packet(input: Seq<char>, namespace: Seq<char>) -> Option<PacketView> {
    if input.len() >= 2 && input[0] == '4' && is_digit(input[1]) {
        let body = after_namespace(input.skip(2), namespace);
        let n = digit_run(body) as int;
        Some(
            PacketView {
                packet_type: digit_value(input[1]),
                id: ack_id_of(body.take(n)),
                payload: payload_of(body.skip(n)),
            },
        )
    } else {
        None
    }
}

fn is_ascii_digit(c: char) -> (b: bool)
    ensures
        b == is_digit(c),
{
    '0' <= c && c <= '9'
}

fn starts_with_at(text: &Vec<char>, at: usize, prefix: &Vec<char>) -> (b: bool)
    requires
        at <= text.len(),
    ensures
        b == prefix@.is_prefix_of(text@.skip(at as int)),
{
    if prefix.len() > text.len() - at {
        return false;
    }
    let mut k: usize = 0;
    while k < prefix.len()
        invariant
            k <= prefix.len(),
            at + prefix.len() <= text.len(),
            forall|j: int| 0 <= j < k ==> text@[at + j] == prefix@[j],
        decreases prefix.len() - k,
    {
        if text[at + k] != prefix[k] {
            assert(text@.skip(at as int)[k as int] != prefix@[k as int]);
            return false;
        }
        k += 1;
    }
    assert(prefix@ =~= text@.skip(at as int).subrange(0, prefix@.len() as int));
    true
}

/// Whether `text` starts with `prefix`.
pub fn starts_with(text: &str, prefix: &str) -> (b: bool)
    ensures
        b == prefix@.is_prefix_of(text@),
{
    let t = chars_of(text);
    let p = chars_of(prefix);
    assert(t@.skip(0) =~= t@);
    starts_with_at(&t, 0, &p)
}

fn slice_to_string(text: &Vec<char>, from: usize) -> (s: String)
    requires
        from <= text.len(),
    ensures
        s@ == text@.skip(from as int),
{
    let mut s = String::new();
    let mut i: usize = from;
    while i < text.len()
        invariant
            from <= i <= text.len(),
            s@ == text@.subrange(from as int, i as int),
        decreases text.len() - i,
    {
        s.push(text[i]);
        assert(text@.subrange(from as int, i + 1) =~= text@.subrange(from as int, i as int).push(
            text@[i as int],
        ));
        i += 1;
    }
    assert(text@.subrange(from as int, text.len() as int) =~= text@.skip(from as int));
    s
}

proof fn lemma_digit_run_prefix(s: Seq<char>, n: int)
    requires
        0 <= n <= s.len(),
        forall|j: int| 0 <= j < n ==> is_digit(#[trigger] s[j]),
        n == s.len() || !is_digit(s[n]),
    ensures
        digit_run(s) == n,
    decreases n,
{
    if n > 0 {
        let r = s.drop_first();
        assert forall|j: int| 0 <= j < n - 1 implies is_digit(#[trigger] r[j]) by {
            assert(r[j] == s[j + 1]);
        }
        if n - 1 < r.len() {
            assert(r[n - 1] == s[n]);
        }
        lemma_digit_run_prefix(r, n - 1);
    }
}

/// Reads the packet that a frame of the socket layer carries.
pub fn parse_sio_packet(input: &str, namespace: &str) -> (packet: Option<SioPacket>)
    ensures
        match packet {
            Some(p) => parsed_packet(input@, namespace@) == Some(p@),
            None => parsed_packet(input@, namespace@) is None,
        },
{
    let text = chars_of(input);
    if text.len() < 2 || text[0] != '4' || !is_ascii_digit(text[1]) {
        return None;
    }
    let packet_type: i32 = (text[1] as u32 - 48) as i32;
    let ns = chars_of(namespace);
    let mut at: usize = 2;
    if starts_with_at(&text, 2, &ns) {
        at = 2 + ns.len();
        if at < text.len() && text[at] == ',' {
            at += 1;
        }
    }
    let ghost body = after_namespace(text@.skip(2), namespace@);
    assert(body =~= text@.skip(at as int));
    let start = at;
    let mut value: u64 = 0;
    let mut fits = true;
    while at < text.len() && is_ascii_digit(text[at])
        invariant
            start <= at <= text.len(),
            body == text@.skip(start as int),
            forall|j: int| 0 <= j < at - start ==> is_digit(#[trigger] body[j]),
            fits ==> value == digits_value(body.take(at - start)) && value <= i64::MAX,
            !fits ==> digits_value(body.take(at - start)) > i64::MAX,
        decreases text.len() - at,
    {
        let d: u64 = (text[at] as u32 - 48) as u64;
        proof {
            let run = body.take(at - start + 1);
            assert(run.drop_last() =~= body.take(at - start));
            assert(run.last() == text@[at as int]);
        }
        if fits && value <= (i64::MAX as u64 - d) / 10 {
            value = value * 10 + d;
        } else {
            fits = false;
        }
        at += 1;
    }
    proof {
        lemma_digit_run_prefix(body, at - start);
        assert(text@.skip(at as int) =~= body.skip(at - start));
    }
    let id = if at > start && fits {
        Some(value as i64)
    } else {
        None
    };
    let tail = slice_to_string(&text, at);
    let payload = if tail.as_str().trim().is_empty() {
        None
    } else {
        Json::parse(tail.as_str())
    };
    Some(SioPacket { packet_type, id, payload })
}


/// What a frame asks of the reader.
#[derive(Debug)]
pub enum Incoming {
    /// An engine ping: answer with a pong.
    Ping,
    /// The engine or the namespace was closed: stop reading and tell the
    /// subscribers.
    Disconnect,
    /// Nothing to do.
    Ignore,
    /// The reply to the emit that carries this id.
    Ack { id: i64, payload: Json },
    /// An event for the handler.
    Event { name: String, data: Json },
}

/// What an [`Incoming`] holds, as mathematical values.
pub enum IncomingView {
    Ping,
    Disconnect,
    Ignore,
    Ack { id: int, payload: JsonView },
    Event { name: Seq<char>, data: JsonView },
}

impl View for Incoming {
    type V = IncomingView;

    open spec fn view(&self) -> IncomingView {
        match self {
            Incoming::Ping => IncomingView::Ping,
            Incoming::Disconnect => IncomingView::Disconnect,
            Incoming::Ignore => IncomingView::Ignore,
            Incoming::Ack { id, payload } => IncomingView::Ack { id: *id as int, payload: payload@ },
            Incoming::Event { name, data } => IncomingView::Event { name: name@, data: data@ },
        }
    }
}

/// What a packet asks of the reader: an acknowledgement with an id and a
/// payload is a reply; an event whose payload is a list that starts with a
/// string is an event of that name, with the second element, or `null`, as
/// its data; anything else is ignored.
pub open spec fn packet_meaning(p: PacketView) -> IncomingView {
    if p.packet_type == PACKET_ACK {
        match (p.id, p.payload) {
            (Some(id), Some(payload)) => IncomingView::Ack { id, payload },
            _ => IncomingView::Ignore,
        }
    } else if p.packet_type == PACKET_EVENT {
        match p.payload {
            Some(payload) => match payload.at(0) {
                Some(first) => match first.as_str() {
                    Some(name) => IncomingView::Event {
                        name,
                        data: match payload.at(1) {
                            Some(d) => d,
                            None => JsonView::Null,
                        },
                    },
                    None => IncomingView::Ignore,
                },
                None => IncomingView::Ignore,
            },
            None => IncomingView::Ignore,
        }
    } else {
        IncomingView::Ignore
    }
}

/// What a text frame asks of the reader.
pub open spec fn frame_meaning(text: Seq<char>, namespace: Seq<char>) -> IncomingView {
    if text == "2"@ {
        IncomingView::Ping
    } else if "1"@.is_prefix_of(text) || ("41"@ + namespace).is_prefix_of(text) {
        IncomingView::Disconnect
    } else if !"4"@.is_prefix_of(text) {
        IncomingView::Ignore
    } else {
        match parsed_packet(text, namespace) {
            Some(p) => packet_meaning(p),
            None => IncomingView::Ignore,
        }
    }
}

fn prefixed(head: &str, namespace: &str) -> (s: String)
    ensures
        s@ == head@ + namespace@,
{
    let mut s = owned(head);
    s.push_str(namespace);
    s
}

/// Decides what a packet asks of the reader.
pub fn interpret_packet(packet: SioPacket) -> (incoming: Incoming)
    ensures
        incoming@ == packet_meaning(packet@),
{
    if packet.packet_type == PACKET_ACK {
        match (packet.id, packet.payload) {
            (Some(id), Some(payload)) => Incoming::Ack { id, payload },
            _ => Incoming::Ignore,
        }
    } else if packet.packet_type == PACKET_EVENT {
        match packet.payload {
            Some(payload) => {
                let name = match payload.at(0) {
                    Some(first) => match first.as_str() {
                        Some(name) => owned(name),
                        None => {
                            return Incoming::Ignore;
                        },
                    },
                    None => {
                        return Incoming::Ignore;
                    },
                };
                let data = match payload.at(1) {
                    Some(d) => d.clone(),
                    None => Json::Null,
                };
                Incoming::Event { name, data }
            },
            None => Incoming::Ignore,
        }
    } else {
        Incoming::Ignore
    }
}

/// Decides what a text frame asks of the reader.
pub fn classify_frame(text: &str, namespace: &str) -> (incoming: Incoming)
    ensures
        incoming@ == frame_meaning(text@, namespace@),
{
    if str_eq(text, "2") {
        Incoming::Ping
    } else if starts_with(text, "1") || starts_with(text, prefixed("41", namespace).as_str()) {
        Incoming::Disconnect
    } else if !starts_with(text, "4") {
        Incoming::Ignore
    } else {
        match parse_sio_packet(text, namespace) {
            Some(p) => interpret_packet(p),
            None => Incoming::Ignore,
        }
    }
}

/// The pong that answers an engine ping.
pub fn pong_frame() -> (frame: String)
    ensures
        frame@ == "3"@,
{
    owned("3")
}

/// The payload of an emit: the list of the event's name and its data.
pub open spec fn event_payload(event: Seq<char>, data: JsonView) -> JsonView {
    JsonView::Array(seq![JsonView::Text(event), data])
}

fn payload_text(event: &str, data: Json) -> (text: String)
    ensures
        text@ == json_text(event_payload(event@, data@)),
{
    let mut items: Vec<Json> = Vec::new();
    items.push(Json::text(event));
    items.push(data);
    let list = Json::Array(items);
    assert(list@ == event_payload(event@, data@)) by {
        assert(list@->Array_0 =~= seq![JsonView::Text(event@), data@]);
    }
    list.render()
}

/// The frame that asks to join a namespace: `40`, the namespace, a comma
/// and the credentials as JSON.
pub fn connect_frame(namespace: &str, auth: &Json) -> (frame: String)
    ensures
        frame@ == "40"@ + namespace@ + ","@ + json_text(auth@),
{
    let mut frame = owned("40");
    frame.push_str(namespace);
    frame.push_str(",");
    frame.push_str(auth.render().as_str());
    frame
}

/// The frame that emits an event: `42`, the namespace, a comma and the payload.
pub fn emit_frame(namespace: &str, event: &str, data: Json) -> (frame: String)
    ensures
        frame@ == "42"@ + namespace@ + ","@ + json_text(event_payload(event@, data@)),
{
    let mut frame = owned("42");
    frame.push_str(namespace);
    frame.push_str(",");
    frame.push_str(payload_text(event, data).as_str());
    frame
}

/// The frame that emits an event and asks for a reply under `id`: as
/// [`emit_frame`], with the id in decimal before the payload.
pub fn emit_with_ack_frame(namespace: &str, id: i64, event: &str, data: Json) -> (frame: String)
    ensures
        frame@ == "42"@ + namespace@ + ","@ + signed_decimal(id as int) + json_text(
            event_payload(event@, data@),
        ),
{
    let mut frame = owned("42");
    frame.push_str(namespace);
    frame.push_str(",");
    push_i64(&mut frame, id);
    frame.push_str(payload_text(event, data).as_str());
    frame
}

/// The frame that leaves a namespace: `41` and the namespace.
pub fn disconnect_frame(namespace: &str) -> (frame: String)
    ensures
        frame@ == "41"@ + namespace@,
{
    prefixed("41", namespace)
}


/// For how many seconds the agent waits to be let into the namespace.
pub const CONNECT_TIMEOUT_SECS: u64 = 10;

/// How many characters of an unexpected first frame are reported.
pub const REPORTED_CHARS: usize = 80;

/// Where the handshake stands.
#[derive(Debug, Clone, Copy, PartialEq, Eq)]
pub enum HandshakeState {
    /// Nothing was read yet: the engine's open packet is due.
    AwaitOpen,
    /// The request to join the namespace was sent: the answer is due.
    AwaitAck,
}

/// What the socket handed over during the handshake.
#[derive(Debug)]
pub enum HandshakeInput {
    /// A text frame.
    Text(String),
    /// A frame that is not text.
    Other,
    /// The socket reported an error.
    Failed,
    /// The socket was closed.
    Closed,
    /// The time to wait was over.
    TimedOut,
}

/// Why a handshake failed.
#[derive(Debug)]
pub enum HandshakeError {
    /// The first thing read was no text frame.
    NoOpenPacket,
    /// The first frame was not the engine's open packet; it started like this.
    UnexpectedOpen(String),
    /// The hub refused the namespace with this frame.
    ConnectError(String),
    /// The hub closed the namespace with this frame.
    ClosedDuringConnect(String),
    /// The socket reported an error.
    SocketFailed,
    /// The socket was closed.
    SocketClosed,
    /// No answer came in time.
    TimedOut,
}

/// What to do next in the handshake.
#[derive(Debug)]
pub enum HandshakeStep {
    /// Send the request to join the namespace, then go on reading.
    SendConnect,
    /// Answer the engine's ping, then go on reading.
    SendPong,
    /// Go on reading.
    Wait,
    /// The namespace was joined.
    Connected,
    /// Give up.
    Fail(HandshakeError),
}

fn first_chars(text: &str, count: usize) -> (head: String)
    ensures
        head@ == text@.take(
            if count < text@.len() {
                count as int
            } else {
                text@.len() as int
            },
        ),
{
    let chars = chars_of(text);
    let end = if count < chars.len() {
        count
    } else {
        chars.len()
    };
    let mut head = String::new();
    let mut i: usize = 0;
    while i < end
        invariant
            i <= end <= chars.len(),
            head@ == chars@.take(i as int),
        decreases end - i,
    {
        head.push(chars[i]);
        assert(chars@.take(i + 1) =~= chars@.take(i as int).push(chars@[i as int]));
        i += 1;
    }
    head
}

/// Takes the handshake one step further.
///
/// The first frame has to be text that starts with `0`; the request to join
/// is sent on it. After that a ping is answered, a frame that starts with
/// `40` and the namespace ends the handshake, a frame that starts with `44`
/// and the namespace or with `41` fails it, and every other frame is passed
/// over. An error, the end of the socket or the end of the waiting time fail it.
pub fn handshake_step(state: HandshakeState, input: HandshakeInput, namespace: &str) -> (next: (
    HandshakeState,
    HandshakeStep,
))
    ensures
        next.0 == if state == HandshakeState::AwaitOpen && next.1 is Fail {
            HandshakeState::AwaitOpen
        } else {
            HandshakeState::AwaitAck
        },
        state == HandshakeState::AwaitOpen ==> match input {
            HandshakeInput::Text(text) => if "0"@.is_prefix_of(text@) {
                next.1 is SendConnect
            } else {
                next.1 matches HandshakeStep::Fail(HandshakeError::UnexpectedOpen(head)) && head@
                    == text@.take(
                    if REPORTED_CHARS < text@.len() {
                        REPORTED_CHARS as int
                    } else {
                        text@.len() as int
                    },
                )
            },
            _ => next.1 matches HandshakeStep::Fail(HandshakeError::NoOpenPacket),
        },
        state == HandshakeState::AwaitAck ==> match input {
            HandshakeInput::Text(text) => if text@ == "2"@ {
                next.1 is SendPong
            } else if ("40"@ + namespace@).is_prefix_of(text@) {
                next.1 is Connected
            } else if ("44"@ + namespace@).is_prefix_of(text@) {
                next.1 matches HandshakeStep::Fail(HandshakeError::ConnectError(t)) && t == text
            } else if "41"@.is_prefix_of(text@) {
                next.1 matches HandshakeStep::Fail(HandshakeError::ClosedDuringConnect(t)) && t
                    == text
            } else {
                next.1 is Wait
            },
            HandshakeInput::Other => next.1 is Wait,
            HandshakeInput::Failed => next.1 matches HandshakeStep::Fail(
                HandshakeError::SocketFailed,
            ),
            HandshakeInput::Closed => next.1 matches HandshakeStep::Fail(
                HandshakeError::SocketClosed,
            ),
            HandshakeInput::TimedOut => next.1 matches HandshakeStep::Fail(HandshakeError::TimedOut),
        },
{
    match state {
        HandshakeState::AwaitOpen => match input {
            HandshakeInput::Text(text) => {
                if starts_with(text.as_str(), "0") {
                    (HandshakeState::AwaitAck, HandshakeStep::SendConnect)
                } else {
                    (
                        HandshakeState::AwaitOpen,
                        HandshakeStep::Fail(
                            HandshakeError::UnexpectedOpen(
                                first_chars(text.as_str(), REPORTED_CHARS),
                            ),
                        ),
                    )
                }
            },
            _ => (HandshakeState::AwaitOpen, HandshakeStep::Fail(HandshakeError::NoOpenPacket)),
        },
        HandshakeState::AwaitAck => match input {
            HandshakeInput::Text(text) => {
                if str_eq(text.as_str(), "2") {
                    (HandshakeState::AwaitAck, HandshakeStep::SendPong)
                } else if starts_with(text.as_str(), prefixed("40", namespace).as_str()) {
                    (HandshakeState::AwaitAck, HandshakeStep::Connected)
                } else if starts_with(text.as_str(), prefixed("44", namespace).as_str()) {
                    (
                        HandshakeState::AwaitAck,
                        HandshakeStep::Fail(HandshakeError::ConnectError(text)),
                    )
                } else if starts_with(text.as_str(), "41") {
                    (
                        HandshakeState::AwaitAck,
                        HandshakeStep::Fail(HandshakeError::ClosedDuringConnect(text)),
                    )
                } else {
                    (HandshakeState::AwaitAck, HandshakeStep::Wait)
                }
            },
            HandshakeInput::Other => (HandshakeState::AwaitAck, HandshakeStep::Wait),
            HandshakeInput::Failed => (
                HandshakeState::AwaitAck,
                HandshakeStep::Fail(HandshakeError::SocketFailed),
            ),
            HandshakeInput::Closed => (
                HandshakeState::AwaitAck,
                HandshakeStep::Fail(HandshakeError::SocketClosed),
            ),
            HandshakeInput::TimedOut => (
                HandshakeState::AwaitAck,
                HandshakeStep::Fail(HandshakeError::TimedOut),
            ),
        },
    }
}


/// The callers that wait for a reply, by the id of their emit, and the id
/// that the next emit gets.
///
/// Ids start at one and only grow, so no two emits share an id.
pub struct AckTable<W> {
    next_id: i64,
    waiting: HashMap<i64, W>,
}

/// The waiters of a map by id, the ids taken as mathematical integers.
spec fn waiters_of<W>(map: Map<i64, W>) -> Map<int, W> {
    Map::new(
        |id: int| i64::MIN <= id <= i64::MAX && map.contains_key(id as i64),
        |id: int| map[id as i64],
    )
}

impl<W> View for AckTable<W> {
    type V = AckView<W>;

    closed spec fn view(&self) -> AckView<W> {
        AckView { next_id: self.next_id as int, waiters: waiters_of(self.waiting@) }
    }
}

impl<W> AckTable<W> {
    #[verifier::type_invariant]
    spec fn well_formed(&self) -> bool {
        &&& self.next_id >= 1
        &&& forall|id: i64| self.waiting@.contains_key(id) ==> 1 <= id < self.next_id
    }

    /// A table in which nobody waits; the first id is one.
    pub fn new() -> (table: Self)
        ensures
            table@.next_id == 1,
            table@.waiters == Map::<int, W>::empty(),
            table@.consistent(),
    {
        let table = AckTable { next_id: 1, waiting: HashMap::new() };
        assert(table@.waiters =~= Map::<int, W>::empty());
        table
    }

    /// Gives the next id to `waiter` and lets it wait under that id. When
    /// the ids are used up the waiter is handed back and nothing changes.
    pub fn register(&mut self, waiter: W) -> (r: Result<i64, W>)
        ensures
            old(self)@.consistent(),
            final(self)@.consistent(),
            old(self)@.next_id < i64::MAX ==> r == Ok::<i64, W>(old(self)@.next_id as i64)
                && final(self)@ == registered(old(self)@, waiter),
            old(self)@.next_id >= i64::MAX ==> r == Err::<i64, W>(waiter) && final(self)@ == old(
                self,
            )@,
    {
        broadcast use vstd::std_specs::hash::group_hash_axioms;

        proof {
            use_type_invariant(&*self);
        }
        if self.next_id == i64::MAX {
            return Err(waiter);
        }
        let id = self.next_id;
        let mut waiting: HashMap<i64, W> = HashMap::new();
        core::mem::swap(&mut waiting, &mut self.waiting);
        waiting.insert(id, waiter);
        *self = AckTable { next_id: id + 1, waiting };
        proof {
            assert(self@.waiters =~= old(self)@.waiters.insert(id as int, waiter));
        }
        Ok(id)
    }

    /// Whether nobody waits.
    pub fn is_idle(&self) -> (b: bool)
        ensures
            b == (self@.waiters == Map::<int, W>::empty()),
    {
        broadcast use vstd::std_specs::hash::group_hash_axioms;

        let b = self.waiting.is_empty();
        proof {
            if b {
                assert(self@.waiters =~= Map::<int, W>::empty());
            } else {
                let id = choose|id: i64| self.waiting@.contains_key(id);
                assert(self@.waiters.contains_key(id as int));
            }
        }
        b
    }

    /// Takes out the caller that waits under `id`, if there is one. A reply
    /// for an id under which nobody waits is dropped.
    pub fn take(&mut self, id: i64) -> (found: Option<W>)
        ensures
            old(self)@.consistent(),
            final(self)@.consistent(),
            match found {
                Some(w) => old(self)@.waiters.contains_key(id as int) && old(self)@.waiters[id as int]
                    == w && final(self)@ == taken(old(self)@, id as int),
                None => !old(self)@.waiters.contains_key(id as int) && final(self)@ == old(self)@,
            },
    {
        broadcast use vstd::std_specs::hash::group_hash_axioms;

        proof {
            use_type_invariant(&*self);
        }
        let next_id = self.next_id;
        let mut waiting: HashMap<i64, W> = HashMap::new();
        core::mem::swap(&mut waiting, &mut self.waiting);
        let found = waiting.remove(&id);
        *self = AckTable { next_id, waiting };
        proof {
            assert(self@.waiters =~= old(self)@.waiters.remove(id as int));
            if found is None {
                assert(self@.waiters =~= old(self)@.waiters);
            }
        }
        found
    }
}

/// What is known of an [`AckTable`]: the next id and who waits under which id.
pub struct AckView<W> {
    pub next_id: int,
    pub waiters: Map<int, W>,
}

impl<W> AckView<W> {
    /// Whether every id under which somebody waits was given out already.
    pub open spec fn consistent(self) -> bool {
        self.next_id >= 1 && forall|id: int|
            self.waiters.contains_key(id) ==> 1 <= id < self.next_id
    }
}

/// The table after `waiter` was registered.
pub open spec fn registered<W>(table: AckView<W>, waiter: W) -> AckView<W> {
    AckView { next_id: table.next_id + 1, waiters: table.waiters.insert(table.next_id, waiter) }
}

/// The table after whoever waited under `id` was taken out.
pub open spec fn taken<W>(table: AckView<W>, id: int) -> AckView<W> {
    AckView { next_id: table.next_id, waiters: table.waiters.remove(id) }
}

/// Replies reach the caller whose id they carry, and nobody else.
///
/// Of two callers that register one after the other in a table in which no
/// waiter has an id that is still to be given, each gets an id of its own. A
/// reply under one of the ids finds the caller that got it, whether or not
/// the other was served before; and once a caller was taken out, a second
/// reply under its id finds nobody.
pub proof fn lemma_acks_are_isolated<W>(table: AckView<W>, first: W, second: W)
    requires
        table.consistent(),
    ensures
        ({
            let id_a = table.next_id;
            let id_b = registered(table, first).next_id;
            let both = registered(registered(table, first), second);
            &&& id_a != id_b
            &&& both.waiters.contains_key(id_a) && both.waiters[id_a] == first
            &&& both.waiters.contains_key(id_b) && both.waiters[id_b] == second
            &&& taken(both, id_a).waiters.contains_key(id_b) && taken(both, id_a).waiters[id_b]
                == second
            &&& taken(both, id_b).waiters.contains_key(id_a) && taken(both, id_b).waiters[id_a]
                == first
            &&& !taken(both, id_a).waiters.contains_key(id_a)
            &&& !taken(both, id_b).waiters.contains_key(id_b)
        }),
{
}


/// What the reader does on a frame.
#[derive(Debug)]
pub enum Reaction<W> {
    /// Write this frame.
    Send(String),
    /// Stop reading and tell the subscribers that the socket is gone.
    Disconnected,
    /// Nothing.
    Nothing,
    /// Hand the payload to this waiter.
    Reply { waiter: W, payload: Json },
    /// Call the handler with this event.
    Event { name: String, data: Json },
}

/// The agent's side of one connection: the namespace it joined and the
/// callers that wait for a reply.
pub struct SocketClient<W> {
    pub namespace: String,
    pub acks: AckTable<W>,
}

impl<W> SocketClient<W> {
    /// A client for a namespace, with nobody waiting.
    pub fn new(namespace: &str) -> (client: Self)
        ensures
            client.namespace@ == namespace@,
            client.acks@.next_id == 1,
            client.acks@.waiters == Map::<int, W>::empty(),
    {
        SocketClient { namespace: owned(namespace), acks: AckTable::new() }
    }

    /// The frame that emits an event.
    pub fn emit(&self, event: &str, data: Json) -> (frame: String)
        ensures
            frame@ == "42"@ + self.namespace@ + ","@ + json_text(event_payload(event@, data@)),
    {
        emit_frame(self.namespace.as_str(), event, data)
    }

    /// Lets `waiter` wait for the reply to an emit and returns the frame
    /// that carries the emit's id. When the ids are used up the waiter is
    /// handed back.
    pub fn emit_with_ack(&mut self, event: &str, data: Json, waiter: W) -> (r: Result<String, W>)
        ensures
            final(self).namespace == old(self).namespace,
            old(self).acks@.next_id < i64::MAX ==> final(self).acks@ == registered(
                old(self).acks@,
                waiter,
            ) && r is Ok && r->Ok_0@ == "42"@ + old(self).namespace@ + ","@ + signed_decimal(
                old(self).acks@.next_id,
            ) + json_text(event_payload(event@, data@)),
            old(self).acks@.next_id >= i64::MAX ==> r == Err::<String, W>(waiter) && final(self).acks@ == old(self).acks@,
    {
        match self.acks.register(waiter) {
            Ok(id) => Ok(emit_with_ack_frame(self.namespace.as_str(), id, event, data)),
            Err(w) => Err(w),
        }
    }

    /// The frame that leaves the namespace.
    pub fn disconnect(&self) -> (frame: String)
        ensures
            frame@ == "41"@ + self.namespace@,
    {
        disconnect_frame(self.namespace.as_str())
    }

    /// Decides what the reader does on a text frame. A reply is matched with
    /// the caller that waits under its id, who waits no longer; a reply
    /// under an id that nobody waits under is dropped.
    pub fn on_frame(&mut self, text: &str) -> (reaction: Reaction<W>)
        ensures
            final(self).namespace == old(self).namespace,
            match frame_meaning(text@, old(self).namespace@) {
                IncomingView::Ping => reaction matches Reaction::Send(f) && f@ == "3"@ && final(self).acks@ == old(self).acks@,
                IncomingView::Disconnect => reaction is Disconnected && final(self).acks@ == old(self).acks@,
                IncomingView::Ignore => reaction is Nothing && final(self).acks@ == old(self).acks@,
                IncomingView::Event { name, data } => reaction matches Reaction::Event {
                    name: n,
                    data: d,
                } && n@ == name && d@ == data && final(self).acks@ == old(self).acks@,
                IncomingView::Ack { id, payload } => if old(self).acks@.waiters.contains_key(id) {
                    reaction matches Reaction::Reply { waiter, payload: p } && waiter == old(self).acks@.waiters[id] && p@ == payload && final(self).acks@ == taken(
                        old(self).acks@,
                        id,
                    )
                } else {
                    reaction is Nothing && final(self).acks@ == old(self).acks@
                },
            },
    {
        match classify_frame(text, self.namespace.as_str()) {
            Incoming::Ping => Reaction::Send(pong_frame()),
            Incoming::Disconnect => Reaction::Disconnected,
            Incoming::Ignore => Reaction::Nothing,
            Incoming::Event { name, data } => Reaction::Event { name, data },
            Incoming::Ack { id, payload } => match self.acks.take(id) {
                Some(waiter) => Reaction::Reply { waiter, payload },
                None => Reaction::Nothing,
            },
        }
    }
}

/// The longest address, in characters, that the library hands to the `url`
/// crate. The crate's setters panic on an address of more than four
/// gigabytes; one that was parsed from a text this short stays far below.
pub const MAX_URL_CHARS: usize = 65536;

/// Whether `Url::parse` accepts a text as an absolute address.
pub uninterp spec fn url_parses(text: Seq<char>) -> bool;

/// The scheme that `Url::scheme` reports of the address that a text denotes.
pub uninterp spec fn url_scheme_text(text: Seq<char>) -> Seq<char>;

/// The address that a text denotes after `Url::set_scheme`, `Url::set_path`
/// and `Url::set_query` have given it another scheme, path and query, as
/// `Url::as_str` writes it; `None` where the text denotes no address or the
/// crate refuses the scheme for it.
pub uninterp spec fn url_rewritten(
    text: Seq<char>,
    scheme: Seq<char>,
    path: Seq<char>,
    query: Seq<char>,
) -> Option<Seq<char>>;

/// `Url::parse`, then `Url::scheme`: the scheme of the address that a text
/// denotes, or nothing where the crate reports a parse error. Both depend
/// on the text alone.
#[verifier::external_body]
fn url_scheme_of(text: &str) -> (r: Option<String>)
    requires
        text@.len() <= MAX_URL_CHARS,
    ensures
        r is Some == url_parses(text@),
        r matches Some(s) ==> s@ == url_scheme_text(text@),
{
    url::Url::parse(text).ok().map(|u| u.scheme().to_string())
}

/// `Url::parse`, then `Url::set_scheme`, `Url::set_path` and
/// `Url::set_query`, then `Url::as_str`: the rewritten address as text, or
/// nothing where the crate reports a parse error or refuses the scheme.
/// The outcome depends on the four texts alone.
#[verifier::external_body]
fn url_rewrite(text: &str, scheme: &str, path: &str, query: &str) -> (r: Option<String>)
    requires
        text@.len() <= MAX_URL_CHARS,
        scheme@.len() <= MAX_URL_CHARS,
        path@.len() <= MAX_URL_CHARS,
        query@.len() <= MAX_URL_CHARS,
    ensures
        match r {
            Some(t) => url_rewritten(text@, scheme@, path@, query@) == Some(t@),
            None => url_rewritten(text@, scheme@, path@, query@) is None,
        },
{
    let mut url = url::Url::parse(text).ok()?;
    url.set_scheme(scheme).ok()?;
    url.set_path(path);
    url.set_query(Some(query));
    Some(url.as_str().to_string())
}

/// The path under which the hub serves the realtime protocol.
pub const SOCKET_PATH: &'static str = "/socket.io/";

/// The query that asks for the protocol's fourth revision over WebSocket.
pub const SOCKET_QUERY: &'static str = "EIO=4&transport=websocket";

/// The WebSocket scheme that goes with the scheme of the hub's address:
/// `wss` for `https`, `ws` for everything else.
pub open spec fn socket_scheme_of(scheme: Seq<char>) -> Seq<char> {
    if scheme == "https"@ {
        "wss"@
    } else {
        "ws"@
    }
}

/// Picks the WebSocket scheme for the scheme of the hub's address.
pub fn socket_scheme(scheme: &str) -> (ws: String)
    ensures
        ws@ == socket_scheme_of(scheme@),
{
    if str_eq(scheme, "https") {
        owned("wss")
    } else {
        owned("ws")
    }
}

/// Why the hub's address could not be turned into a socket address.
#[derive(Debug, Clone, Copy, PartialEq, Eq)]
pub enum SocketUrlError {
    /// The address could not be parsed, or is longer than [`MAX_URL_CHARS`].
    Unparsable,
    /// The address does not take a WebSocket scheme.
    SchemeRefused,
}

/// The address of the hub's realtime endpoint, as the `url` crate writes
/// it: the hub's address with the scheme that [`socket_scheme`] picks, the
/// path [`SOCKET_PATH`] and the query [`SOCKET_QUERY`].
pub open spec fn socket_url_of(api_url: Seq<char>) -> Result<Seq<char>, SocketUrlError> {
    if api_url.len() > MAX_URL_CHARS || !url_parses(api_url) {
        Err(SocketUrlError::Unparsable)
    } else {
        match url_rewritten(
            api_url,
            socket_scheme_of(url_scheme_text(api_url)),
            SOCKET_PATH@,
            SOCKET_QUERY@,
        ) {
            Some(t) => Ok(t),
            None => Err(SocketUrlError::SchemeRefused),
        }
    }
}

/// Turns the hub's address into the address of its realtime endpoint.
pub fn socket_url(api_url: &str) -> (r: Result<String, SocketUrlError>)
    ensures
        match socket_url_of(api_url@) {
            Ok(t) => r matches Ok(s) && s@ == t,
            Err(e) => r == Err::<String, SocketUrlError>(e),
        },
{
    if api_url.unicode_len() > MAX_URL_CHARS {
        return Err(SocketUrlError::Unparsable);
    }
    let scheme = match url_scheme_of(api_url) {
        Some(s) => s,
        None => {
            return Err(SocketUrlError::Unparsable);
        },
    };
    let ws = socket_scheme(scheme.as_str());
    proof {
        reveal_strlit("wss");
        reveal_strlit("ws");
        reveal_strlit("/socket.io/");
        reveal_strlit("EIO=4&transport=websocket");
    }
    match url_rewrite(api_url, ws.as_str(), SOCKET_PATH, SOCKET_QUERY) {
        Some(t) => Ok(t),
        None => Err(SocketUrlError::SchemeRefused),
    }
}

} // verus!
