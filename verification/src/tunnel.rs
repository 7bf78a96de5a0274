//! The tunnels that the hub opens through the agent, without their sockets.
//!
//! A tunnel is a byte stream between the hub and one local TCP connection.
//! The manager keeps one handle per tunnel id; what a handle is, and how
//! bytes reach the connection, is left to the caller.

use vstd::prelude::*;
use crate::connection::{SocketEvent, SocketEventView, DEFAULT_TUNNEL_HOST};
use crate::json::{member_text, object, text_member, Json, JsonView, Member};
use crate::text::{decimal, owned, push_u64, str_eq};

verus! {

/// How many bytes are read from a local connection at once.
pub const READ_BUFFER_BYTES: usize = 16384;

/// How many buffers may wait to be written to a local connection.
pub const WRITE_QUEUE_BUFFERS: usize = 256;

/// The character that stands for six bits in the standard base64 alphabet.
pub open spec fn base64_symbol(bits: int) -> char
    recommends
        0 <= bits < 64,
{
    if bits < 26 {
        ((65 + bits) as u8) as char
    } else if bits < 52 {
        ((71 + bits) as u8) as char
    } else if bits < 62 {
        ((bits - 4) as u8) as char
    } else if bits == 62 {
        '+'
    } else {
        '/'
    }
}

/// The base64 text of a run of bytes: four characters of the standard
/// alphabet for every three bytes, the last group filled up with `=`.
pub open spec fn base64_text(bytes: Seq<u8>) -> Seq<char>
    decreases bytes.len(),
{
    if bytes.len() == 0 {
        Seq::empty()
    } else if bytes.len() == 1 {
        let a = bytes[0] as int;
        seq![base64_symbol(a / 4), base64_symbol(a % 4 * 16), '=', '=']
    } else if bytes.len() == 2 {
        let a = bytes[0] as int;
        let b = bytes[1] as int;
        seq![
            base64_symbol(a / 4),
            base64_symbol(a % 4 * 16 + b / 16),
            base64_symbol(b % 16 * 4),
            '=',
        ]
    } else {
        let a = bytes[0] as int;
        let b = bytes[1] as int;
        let c = bytes[2] as int;
        seq![
            base64_symbol(a / 4),
            base64_symbol(a % 4 * 16 + b / 16),
            base64_symbol(b % 16 * 4 + c / 64),
            base64_symbol(c % 64),
        ] + base64_text(bytes.skip(3))
    }
}

/// Whether a text is the base64 text of some bytes.
pub open spec fn is_base64(text: Seq<char>) -> bool {
    exists|bytes: Seq<u8>| base64_text(bytes) == text
}

/// The bytes that a base64 text denotes, or `None` where the text is not
/// the base64 text of any bytes.
pub open spec fn base64_bytes(text: Seq<char>) -> Option<Seq<u8>> {
    if is_base64(text) {
        Some(choose|bytes: Seq<u8>| base64_text(bytes) == text)
    } else {
        None
    }
}

/// The six bits that a character of the alphabet stands for.
spec fn symbol_bits(c: char) -> int {
    let u = c as u32 as int;
    if 65 <= u <= 90 {
        u - 65
    } else if 97 <= u <= 122 {
        u - 71
    } else if 48 <= u <= 57 {
        u + 4
    } else if u == 43 {
        62
    } else {
        63
    }
}

proof fn lemma_symbol(bits: int)
    requires
        0 <= bits < 64,
    ensures
        symbol_bits(base64_symbol(bits)) == bits,
        base64_symbol(bits) != '=',
{
}

proof fn lemma_base64_len(bytes: Seq<u8>)
    ensures
        bytes.len() == 0 ==> base64_text(bytes).len() == 0,
        bytes.len() > 0 ==> base64_text(bytes).len() >= 4,
{
}

/// Different bytes have different base64 texts.
pub proof fn lemma_base64_is_injective(a: Seq<u8>, b: Seq<u8>)
    requires
        base64_text(a) == base64_text(b),
    ensures
        a == b,
    decreases a.len(),
{
    let t = base64_text(a);
    lemma_base64_len(a);
    lemma_base64_len(b);
    if a.len() == 0 || b.len() == 0 {
        assert(a =~= b);
    } else {
        let a0 = a[0] as int;
        let b0 = b[0] as int;
        lemma_symbol(a0 / 4);
        lemma_symbol(b0 / 4);
        assert(t[0] == base64_symbol(a0 / 4));
        assert(t[0] == base64_symbol(b0 / 4));
        if a.len() == 1 {
            assert(t[3] == '=' && t[2] == '=');
            lemma_symbol(a0 % 4 * 16);
            if b.len() == 1 {
                lemma_symbol(b0 % 4 * 16);
                assert(t[1] == base64_symbol(a0 % 4 * 16));
                assert(t[1] == base64_symbol(b0 % 4 * 16));
                assert(a0 == b0);
                assert(a =~= b);
            } else if b.len() == 2 {
                lemma_symbol((b[1] as int) % 16 * 4);
                assert(t[2] == base64_symbol((b[1] as int) % 16 * 4));
            } else {
                lemma_symbol((b[2] as int) % 64);
                assert(t[3] == base64_symbol((b[2] as int) % 64));
            }
        } else if a.len() == 2 {
            let a1 = a[1] as int;
            assert(t[3] == '=');
            lemma_symbol(a0 % 4 * 16 + a1 / 16);
            lemma_symbol(a1 % 16 * 4);
            assert(t[1] == base64_symbol(a0 % 4 * 16 + a1 / 16));
            assert(t[2] == base64_symbol(a1 % 16 * 4));
            if b.len() == 1 {
                assert(base64_text(b)[2] == '=');
            } else if b.len() == 2 {
                let b1 = b[1] as int;
                lemma_symbol(b0 % 4 * 16 + b1 / 16);
                lemma_symbol(b1 % 16 * 4);
                assert(t[1] == base64_symbol(b0 % 4 * 16 + b1 / 16));
                assert(t[2] == base64_symbol(b1 % 16 * 4));
                assert(a0 == b0 && a1 == b1);
                assert(a =~= b);
            } else {
                lemma_symbol((b[2] as int) % 64);
                assert(t[3] == base64_symbol((b[2] as int) % 64));
            }
        } else {
            let a1 = a[1] as int;
            let a2 = a[2] as int;
            lemma_symbol(a0 % 4 * 16 + a1 / 16);
            lemma_symbol(a1 % 16 * 4 + a2 / 64);
            lemma_symbol(a2 % 64);
            let head_a = seq![
                base64_symbol(a0 / 4),
                base64_symbol(a0 % 4 * 16 + a1 / 16),
                base64_symbol(a1 % 16 * 4 + a2 / 64),
                base64_symbol(a2 % 64),
            ];
            assert(t == head_a + base64_text(a.skip(3)));
            assert(t[1] == head_a[1] && t[2] == head_a[2] && t[3] == head_a[3]);
            if b.len() == 1 {
                assert(base64_text(b)[3] == '=');
            } else if b.len() == 2 {
                assert(base64_text(b)[3] == '=');
            } else {
                let b1 = b[1] as int;
                let b2 = b[2] as int;
                lemma_symbol(b0 % 4 * 16 + b1 / 16);
                lemma_symbol(b1 % 16 * 4 + b2 / 64);
                lemma_symbol(b2 % 64);
                let head_b = seq![
                    base64_symbol(b0 / 4),
                    base64_symbol(b0 % 4 * 16 + b1 / 16),
                    base64_symbol(b1 % 16 * 4 + b2 / 64),
                    base64_symbol(b2 % 64),
                ];
                assert(t == head_b + base64_text(b.skip(3)));
                assert(t[1] == head_b[1] && t[2] == head_b[2] && t[3] == head_b[3]);
                assert(a0 == b0 && a1 == b1 && a2 == b2);
                assert(base64_text(a.skip(3)) =~= t.skip(4));
                assert(base64_text(b.skip(3)) =~= t.skip(4));
                lemma_base64_is_injective(a.skip(3), b.skip(3));
                assert(a =~= seq![a[0], a[1], a[2]] + a.skip(3));
                assert(b =~= seq![b[0], b[1], b[2]] + b.skip(3));
            }
        }
    }
}

/// Decoding undoes encoding.
pub proof fn lemma_base64_round_trip(bytes: Seq<u8>)
    ensures
        base64_bytes(base64_text(bytes)) == Some(bytes),
{
    let text = base64_text(bytes);
    assert(is_base64(text));
    let found = choose|b: Seq<u8>| base64_text(b) == text;
    lemma_base64_is_injective(found, bytes);
}

/// `Engine::encode` of `base64`'s `STANDARD` engine: the base64 text of the
/// bytes, in the standard alphabet and with padding. The crate panics when
/// the length of the text does not fit a `usize`; the bound keeps clear of that.
#[verifier::external_body]
fn base64_encode(bytes: &[u8]) -> (text: String)
    requires
        bytes@.len() <= READ_BUFFER_BYTES,
    ensures
        text@ == base64_text(bytes@),
{
    base64::Engine::encode(&base64::engine::general_purpose::STANDARD, bytes)
}

/// `Engine::decode` of `base64`'s `STANDARD` engine, which asks for
/// canonical padding and refuses trailing bits: it gives the bytes of
/// which the text is the base64 text, and reports an error where the text
/// is the base64 text of no bytes.
#[verifier::external_body]
fn base64_decode(text: &str) -> (r: Option<Vec<u8>>)
    ensures
        match r {
            Some(bytes) => base64_text(bytes@) == text@,
            None => !is_base64(text@),
        },
{
    base64::Engine::decode(&base64::engine::general_purpose::STANDARD, text).ok()
}

/// Reads the bytes that a base64 text denotes.
pub fn decode_base64(text: &str) -> (r: Option<Vec<u8>>)
    ensures
        match r {
            Some(bytes) => base64_bytes(text@) == Some(bytes@),
            None => base64_bytes(text@) is None,
        },
{
    let r = base64_decode(text);
    proof {
        if let Some(bytes) = &r {
            assert(is_base64(text@));
            let found = choose|b: Seq<u8>| base64_text(b) == text@;
            lemma_base64_is_injective(found, bytes@);
        }
    }
    r
}

/// The data of an event that names nothing but a tunnel.
pub open spec fn tunnel_only(tunnel_id: Seq<char>) -> JsonView {
    JsonView::Object(seq![text_member("tunnelId"@, tunnel_id)])
}

/// The data of an event that names a tunnel and one more string.
pub open spec fn tunnel_with(tunnel_id: Seq<char>, key: Seq<char>, value: Seq<char>) -> JsonView {
    JsonView::Object(seq![text_member("tunnelId"@, tunnel_id), text_member(key, value)])
}

fn payload_only(tunnel_id: &str) -> (data: Json)
    ensures
        data@ == tunnel_only(tunnel_id@),
{
    let mut members: Vec<Member> = Vec::new();
    members.push(member_text("tunnelId", tunnel_id));
    let data = object(members);
    assert(data@->Object_0 =~= tunnel_only(tunnel_id@)->Object_0);
    data
}

fn payload_with(tunnel_id: &str, key: &str, value: &str) -> (data: Json)
    ensures
        data@ == tunnel_with(tunnel_id@, key@, value@),
{
    let mut members: Vec<Member> = Vec::new();
    members.push(member_text("tunnelId", tunnel_id));
    members.push(member_text(key, value));
    let data = object(members);
    assert(data@->Object_0 =~= tunnel_with(tunnel_id@, key@, value@)->Object_0);
    data
}

/// An event for the hub: its name and its data.
#[derive(Debug)]
pub struct Emit {
    pub event: String,
    pub data: Json,
}

/// What the message of a failed dial says.
pub open spec fn refused_message(host: Seq<char>, port: int) -> Seq<char> {
    "connect ECONNREFUSED "@ + host + ":"@ + decimal(port as nat)
}

/// The event that tells the hub that the local connection stands.
pub fn tunnel_ready(tunnel_id: &str) -> (emit: Emit)
    ensures
        emit.event@ == "tunnel:ready"@,
        emit.data@ == tunnel_only(tunnel_id@),
{
    Emit { event: owned("tunnel:ready"), data: payload_only(tunnel_id) }
}

/// The event that tells the hub that the local connection could not be made.
pub fn tunnel_refused(tunnel_id: &str, host: &str, port: u16) -> (emit: Emit)
    ensures
        emit.event@ == "tunnel:error"@,
        emit.data@ == tunnel_with(tunnel_id@, "message"@, refused_message(host@, port as int)),
{
    let mut message = owned("connect ECONNREFUSED ");
    message.push_str(host);
    message.push_str(":");
    push_u64(&mut message, port as u64);
    Emit { event: owned("tunnel:error"), data: payload_with(tunnel_id, "message", message.as_str()) }
}

/// What follows a dial.
#[derive(Debug)]
pub enum DialStep {
    /// The connection stands: send this event; if it is sent, start the
    /// pumps and open the tunnel; if it cannot be sent, drop the connection.
    Announce(Emit),
    /// The connection could not be made: send this event and open nothing.
    Report(Emit),
}

/// Decides what follows a dial for a tunnel.
pub fn after_dial(tunnel_id: &str, host: &str, port: u16, connected: bool) -> (step: DialStep)
    ensures
        connected ==> (step matches DialStep::Announce(emit) && emit.event@ == "tunnel:ready"@
            && emit.data@ == tunnel_only(tunnel_id@)),
        !connected ==> (step matches DialStep::Report(emit) && emit.event@ == "tunnel:error"@
            && emit.data@ == tunnel_with(
            tunnel_id@,
            "message"@,
            refused_message(host@, port as int),
        )),
{
    if connected {
        DialStep::Announce(tunnel_ready(tunnel_id))
    } else {
        DialStep::Report(tunnel_refused(tunnel_id, host, port))
    }
}

/// What a read from the local connection gave.
#[derive(Debug)]
pub enum ReadOutcome {
    /// These bytes, at least one.
    Data(Vec<u8>),
    /// The connection was closed.
    Eof,
    /// The read failed with this message.
    Failed(String),
}

/// What the read pump does after a read.
#[derive(Debug)]
pub struct PumpStep {
    /// The event to send to the hub.
    pub emit: Emit,
    /// Whether the pump reads on. It also stops when the event cannot be sent.
    pub read_on: bool,
}

/// Decides what the read pump does after a read: bytes travel to the hub
/// as base64 and the pump reads on; the end of the connection and a failed
/// read are reported, and end the pump.
pub fn on_read(tunnel_id: &str, outcome: ReadOutcome) -> (step: PumpStep)
    requires
        outcome matches ReadOutcome::Data(bytes) ==> bytes@.len() <= READ_BUFFER_BYTES,
    ensures
        match outcome {
            ReadOutcome::Data(bytes) => {
                &&& step.read_on
                &&& step.emit.event@ == "tunnel:data"@
                &&& step.emit.data@ == tunnel_with(tunnel_id@, "data"@, base64_text(bytes@))
            },
            ReadOutcome::Eof => {
                &&& !step.read_on
                &&& step.emit.event@ == "tunnel:close"@
                &&& step.emit.data@ == tunnel_only(tunnel_id@)
            },
            ReadOutcome::Failed(message) => {
                &&& !step.read_on
                &&& step.emit.event@ == "tunnel:error"@
                &&& step.emit.data@ == tunnel_with(tunnel_id@, "message"@, message@)
            },
        },
{
    match outcome {
        ReadOutcome::Data(bytes) => {
            let text = base64_encode(bytes.as_slice());
            PumpStep {
                emit: Emit {
                    event: owned("tunnel:data"),
                    data: payload_with(tunnel_id, "data", text.as_str()),
                },
                read_on: true,
            }
        },
        ReadOutcome::Eof => PumpStep {
            emit: Emit { event: owned("tunnel:close"), data: payload_only(tunnel_id) },
            read_on: false,
        },
        ReadOutcome::Failed(message) => PumpStep {
            emit: Emit {
                event: owned("tunnel:error"),
                data: payload_with(tunnel_id, "message", message.as_str()),
            },
            read_on: false,
        },
    }
}

/// One open tunnel.
struct Tunnel<H> {
    id: String,
    handle: H,
}

/// The handles of a list by tunnel id.
spec fn handles_of<H>(list: Seq<Tunnel<H>>) -> Map<Seq<char>, H>
    decreases list.len(),
{
    if list.len() == 0 {
        Map::empty()
    } else {
        handles_of(list.drop_last()).insert(list.last().id@, list.last().handle)
    }
}

spec fn distinct_ids<H>(list: Seq<Tunnel<H>>) -> bool {
    forall|a: int, b: int|
        0 <= a < b < list.len() ==> (#[trigger] list[a]).id@ != (#[trigger] list[b]).id@
}

proof fn lemma_handles_domain<H>(list: Seq<Tunnel<H>>, id: Seq<char>)
    ensures
        handles_of(list).contains_key(id) <==> exists|k: int|
            0 <= k < list.len() && (#[trigger] list[k]).id@ == id,
    decreases list.len(),
{
    if list.len() > 0 {
        lemma_handles_domain(list.drop_last(), id);
        if handles_of(list).contains_key(id) {
            if list.last().id@ == id {
                assert(list[list.len() - 1].id@ == id);
            } else {
                let k = choose|k: int|
                    0 <= k < list.drop_last().len() && (#[trigger] list.drop_last()[k]).id@ == id;
                assert(list[k].id@ == id);
            }
        } else {
            assert forall|k: int| 0 <= k < list.len() implies (#[trigger] list[k]).id@ != id by {
                if k < list.len() - 1 {
                    assert(list.drop_last()[k] == list[k]);
                }
            }
        }
    }
}

proof fn lemma_handles_remove<H>(list: Seq<Tunnel<H>>, at: int)
    requires
        0 <= at < list.len(),
        distinct_ids(list),
    ensures
        handles_of(list.remove(at)) == handles_of(list).remove(list[at].id@),
        handles_of(list).contains_key(list[at].id@),
        handles_of(list)[list[at].id@] == list[at].handle,
        distinct_ids(list.remove(at)),
    decreases list.len(),
{
    let rest = list.drop_last();
    let gone = list.remove(at);
    assert forall|a: int, b: int| 0 <= a < b < gone.len() implies (#[trigger] gone[a]).id@ != (
    #[trigger] gone[b]).id@ by {
        let pa = if a < at {
            a
        } else {
            a + 1
        };
        let pb = if b < at {
            b
        } else {
            b + 1
        };
        assert(gone[a] == list[pa]);
        assert(gone[b] == list[pb]);
    }
    if at == list.len() - 1 {
        assert(gone =~= rest);
        lemma_handles_domain(rest, list[at].id@);
        if handles_of(rest).contains_key(list[at].id@) {
            let k = choose|k: int| 0 <= k < rest.len() && (#[trigger] rest[k]).id@ == list[at].id@;
            assert(list[k].id@ == list[at].id@);
        }
        assert(handles_of(rest) =~= handles_of(list).remove(list[at].id@));
    } else {
        assert forall|a: int, b: int| 0 <= a < b < rest.len() implies (#[trigger] rest[a]).id@ != (
        #[trigger] rest[b]).id@ by {
            assert(rest[a] == list[a]);
            assert(rest[b] == list[b]);
        }
        lemma_handles_remove(rest, at);
        assert(gone.drop_last() =~= rest.remove(at));
        assert(gone.last() == list.last());
        assert(list[at].id@ != list[list.len() - 1].id@);
        assert(rest[at] == list[at]);
        assert(handles_of(gone) =~= handles_of(list).remove(list[at].id@));
    }
}

/// Whether `handle` is the handle of one of the tunnels.
pub open spec fn holds<H>(tunnels: Map<Seq<char>, H>, handle: H) -> bool {
    exists|id: Seq<char>| tunnels.contains_key(id) && tunnels[id] == handle
}

/// What the manager asks of its caller.
#[derive(Debug)]
pub enum TunnelAction<H> {
    /// Connect to this host and port for this tunnel, then report how it went.
    Dial { tunnel_id: String, host: String, port: u16 },
    /// Hand these bytes to the write pump of this tunnel, which is open.
    Write { tunnel_id: String, bytes: Vec<u8> },
    /// The tunnel was closed; this was its handle, if it was open.
    Closed(Option<H>),
    /// The socket is gone: these were the handles of all tunnels, and the
    /// manager is done.
    Stopped(Vec<H>),
    /// Nothing: the tunnel is not open, or the data was not base64.
    Nothing,
}

/// The open tunnels by id.
pub struct TunnelManager<H> {
    tunnels: Vec<Tunnel<H>>,
}

impl<H> View for TunnelManager<H> {
    type V = Map<Seq<char>, H>;

    closed spec fn view(&self) -> Map<Seq<char>, H> {
        handles_of(self.tunnels@)
    }
}

impl<H> TunnelManager<H> {
    #[verifier::type_invariant]
    spec fn well_formed(&self) -> bool {
        distinct_ids(self.tunnels@)
    }

    /// A manager without tunnels.
    pub fn new() -> (manager: Self)
        ensures
            manager@ == Map::<Seq<char>, H>::empty(),
    {
        TunnelManager { tunnels: Vec::new() }
    }

    fn position(&self, tunnel_id: &str) -> (found: Option<usize>)
        ensures
            match found {
                Some(k) => k < self.tunnels@.len() && self.tunnels@[k as int].id@ == tunnel_id@
                    && self@.contains_key(tunnel_id@) && self@[tunnel_id@]
                    == self.tunnels@[k as int].handle,
                None => !self@.contains_key(tunnel_id@),
            },
    {
        proof {
            use_type_invariant(self);
            lemma_handles_domain(self.tunnels@, tunnel_id@);
        }
        let mut i: usize = 0;
        while i < self.tunnels.len() && !str_eq(self.tunnels[i].id.as_str(), tunnel_id)
            invariant
                i <= self.tunnels.len(),
                forall|k: int| 0 <= k < i ==> (#[trigger] self.tunnels@[k]).id@ != tunnel_id@,
            decreases self.tunnels.len() - i,
        {
            i += 1;
        }
        if i < self.tunnels.len() {
            proof {
                lemma_handles_remove(self.tunnels@, i as int);
            }
            Some(i)
        } else {
            None
        }
    }

    /// Whether this tunnel is open.
    pub fn is_open(&self, tunnel_id: &str) -> (b: bool)
        ensures
            b == self@.contains_key(tunnel_id@),
    {
        self.position(tunnel_id).is_some()
    }

    /// The handle of this tunnel, if it is open.
    pub fn get(&self, tunnel_id: &str) -> (found: Option<&H>)
        ensures
            match found {
                Some(h) => self@.contains_key(tunnel_id@) && self@[tunnel_id@] == *h,
                None => !self@.contains_key(tunnel_id@),
            },
    {
        match self.position(tunnel_id) {
            Some(k) => Some(&self.tunnels[k].handle),
            None => None,
        }
    }

    /// Closes this tunnel and hands out its handle, if it was open.
    pub fn remove(&mut self, tunnel_id: &str) -> (found: Option<H>)
        ensures
            final(self)@ == old(self)@.remove(tunnel_id@),
            match found {
                Some(h) => old(self)@.contains_key(tunnel_id@) && old(self)@[tunnel_id@] == h,
                None => !old(self)@.contains_key(tunnel_id@),
            },
    {
        proof {
            use_type_invariant(&*self);
        }
        match self.position(tunnel_id) {
            Some(k) => {
                let ghost before = self.tunnels@;
                let mut tunnels: Vec<Tunnel<H>> = Vec::new();
                core::mem::swap(&mut tunnels, &mut self.tunnels);
                let entry = tunnels.remove(k);
                proof {
                    lemma_handles_remove(before, k as int);
                }
                *self = TunnelManager { tunnels };
                Some(entry.handle)
            },
            None => {
                assert(self@ =~= old(self)@.remove(tunnel_id@));
                None
            },
        }
    }

    /// Opens this tunnel with this handle. If a tunnel of this id was open,
    /// its handle is handed out.
    pub fn insert(&mut self, tunnel_id: String, handle: H) -> (replaced: Option<H>)
        ensures
            final(self)@ == old(self)@.insert(tunnel_id@, handle),
            match replaced {
                Some(h) => old(self)@.contains_key(tunnel_id@) && old(self)@[tunnel_id@] == h,
                None => !old(self)@.contains_key(tunnel_id@),
            },
    {
        let replaced = self.remove(tunnel_id.as_str());
        proof {
            use_type_invariant(&*self);
            lemma_handles_domain(self.tunnels@, tunnel_id@);
        }
        let ghost before = self.tunnels@;
        let mut tunnels: Vec<Tunnel<H>> = Vec::new();
        core::mem::swap(&mut tunnels, &mut self.tunnels);
        tunnels.push(Tunnel { id: tunnel_id, handle });
        proof {
            assert(tunnels@.drop_last() =~= before);
            assert forall|a: int, b: int| 0 <= a < b < tunnels@.len() implies (
            #[trigger] tunnels@[a]).id@ != (#[trigger] tunnels@[b]).id@ by {
                assert(tunnels@[a] == before[a]);
                if b < before.len() {
                    assert(tunnels@[b] == before[b]);
                }
            }
            assert(handles_of(tunnels@) =~= old(self)@.insert(tunnel_id@, handle));
        }
        *self = TunnelManager { tunnels };
        replaced
    }

    /// Takes note of how a write to a tunnel went: a tunnel whose write
    /// pump took the bytes stays open; one whose pump is gone is closed, and
    /// its handle is handed out.
    pub fn on_write_result(&mut self, tunnel_id: &str, delivered: bool) -> (closed: Option<H>)
        ensures
            delivered ==> closed is None && final(self)@ == old(self)@,
            !delivered ==> final(self)@ == old(self)@.remove(tunnel_id@) && match closed {
                Some(h) => old(self)@.contains_key(tunnel_id@) && old(self)@[tunnel_id@] == h,
                None => !old(self)@.contains_key(tunnel_id@),
            },
    {
        if delivered {
            None
        } else {
            self.remove(tunnel_id)
        }
    }

    /// Takes note that the read pump of a tunnel has ended, because the
    /// local connection was closed or failed: the tunnel is closed, and its
    /// handle is handed out.
    pub fn on_pump_ended(&mut self, tunnel_id: &str) -> (closed: Option<H>)
        ensures
            final(self)@ == old(self)@.remove(tunnel_id@),
            match closed {
                Some(h) => old(self)@.contains_key(tunnel_id@) && old(self)@[tunnel_id@] == h,
                None => !old(self)@.contains_key(tunnel_id@),
            },
    {
        self.remove(tunnel_id)
    }

    /// Closes all tunnels and hands out their handles.
    pub fn clear(&mut self) -> (handles: Vec<H>)
        ensures
            final(self)@ == Map::<Seq<char>, H>::empty(),
            forall|id: Seq<char>|
                old(self)@.contains_key(id) ==> handles@.contains(#[trigger] old(self)@[id]),
            forall|k: int| 0 <= k < handles@.len() ==> holds(old(self)@, #[trigger] handles@[k]),
    {
        proof {
            use_type_invariant(&*self);
        }
        let ghost before = self.tunnels@;
        let mut tunnels: Vec<Tunnel<H>> = Vec::new();
        core::mem::swap(&mut tunnels, &mut self.tunnels);
        let mut handles: Vec<H> = Vec::new();
        while tunnels.len() > 0
            invariant
                tunnels@ == before.take(tunnels@.len() as int),
                tunnels@.len() <= before.len(),
                handles@.len() == before.len() - tunnels@.len(),
                forall|k: int|
                    tunnels@.len() <= k < before.len() ==> handles@.contains(
                        (#[trigger] before[k]).handle,
                    ),
                forall|k: int|
                    0 <= k < handles@.len() ==> #[trigger] handles@[k] == before[before.len() - 1
                        - k].handle,
            decreases tunnels.len(),
        {
            let ghost n = tunnels@.len() - 1;
            let ghost so_far = handles@;
            let entry = tunnels.pop().unwrap();
            handles.push(entry.handle);
            proof {
                assert(entry == before[n]);
                assert forall|k: int| tunnels@.len() <= k < before.len() implies handles@.contains(
                    (#[trigger] before[k]).handle,
                ) by {
                    if k == n {
                        assert(handles@[handles@.len() - 1] == before[k].handle);
                    } else {
                        assert(so_far.contains(before[k].handle));
                        let j = choose|j: int| 0 <= j < so_far.len() && so_far[j] == before[k].handle;
                        assert(handles@[j] == before[k].handle);
                    }
                }
            }
        }
        proof {
            assert forall|id: Seq<char>| old(self)@.contains_key(id) implies handles@.contains(
                #[trigger] old(self)@[id],
            ) by {
                lemma_handles_domain(before, id);
                let k = choose|k: int| 0 <= k < before.len() && (#[trigger] before[k]).id@ == id;
                lemma_handles_remove(before, k);
            }
            assert forall|k: int| 0 <= k < handles@.len() implies holds(
                old(self)@,
                #[trigger] handles@[k],
            ) by {
                let at = before.len() - 1 - k;
                lemma_handles_remove(before, at);
                assert(old(self)@.contains_key(before[at].id@) && old(self)@[before[at].id@]
                    == handles@[k]);
            }
        }
        handles
    }

    /// Decides what an event of the socket asks for.
    ///
    /// An open asks for a dial, to `127.0.0.1` when the hub names no host.
    /// Data for an open tunnel is decoded and asks for a write; data for a
    /// tunnel that is not open, or data that is not base64, is dropped. A
    /// close closes the tunnel. The loss of the socket closes all tunnels.
    pub fn on_event(&mut self, event: SocketEvent) -> (action: TunnelAction<H>)
        ensures
            match event@ {
                SocketEventView::TunnelOpen { tunnel_id, host, port } => {
                    &&& final(self)@ == old(self)@
                    &&& action matches TunnelAction::Dial { tunnel_id: t, host: h, port: p }
                    &&& t@ == tunnel_id
                    &&& p == port
                    &&& h@ == match host {
                        Some(name) => name,
                        None => DEFAULT_TUNNEL_HOST@,
                    }
                },
                SocketEventView::TunnelData { tunnel_id, data } => {
                    &&& final(self)@ == old(self)@
                    &&& if old(self)@.contains_key(tunnel_id) && base64_bytes(data) is Some {
                        &&& action matches TunnelAction::Write { tunnel_id: t, bytes }
                        &&& t@ == tunnel_id
                        &&& Some(bytes@) == base64_bytes(data)
                    } else {
                        action is Nothing
                    }
                },
                SocketEventView::TunnelClose { tunnel_id } => {
                    &&& final(self)@ == old(self)@.remove(tunnel_id)
                    &&& action matches TunnelAction::Closed(handle)
                    &&& match handle {
                        Some(h) => old(self)@.contains_key(tunnel_id) && old(self)@[tunnel_id] == h,
                        None => !old(self)@.contains_key(tunnel_id),
                    }
                },
                SocketEventView::Disconnected => {
                    &&& final(self)@ == Map::<Seq<char>, H>::empty()
                    &&& action matches TunnelAction::Stopped(handles)
                    &&& forall|id: Seq<char>|
                        old(self)@.contains_key(id) ==> handles@.contains(
                            #[trigger] old(self)@[id],
                        )
                    &&& forall|k: int|
                        0 <= k < handles@.len() ==> holds(old(self)@, #[trigger] handles@[k])
                },
            },
    {
        match event {
            SocketEvent::TunnelOpen { tunnel_id, host, port } => {
                let host = match host {
                    Some(h) => h,
                    None => owned(DEFAULT_TUNNEL_HOST),
                };
                TunnelAction::Dial { tunnel_id, host, port }
            },
            SocketEvent::TunnelData { tunnel_id, data } => {
                if self.is_open(tunnel_id.as_str()) {
                    match decode_base64(data.as_str()) {
                        Some(bytes) => TunnelAction::Write { tunnel_id, bytes },
                        None => TunnelAction::Nothing,
                    }
                } else {
                    TunnelAction::Nothing
                }
            },
            SocketEvent::TunnelClose { tunnel_id } => TunnelAction::Closed(
                self.remove(tunnel_id.as_str()),
            ),
            SocketEvent::Disconnected => TunnelAction::Stopped(self.clear()),
        }
    }
}

} // verus!
