//! What the indexer needs to talk to the hub: the session cache, the
//! lifetime of an access token, the request addresses, and what to do with
//! each item of the event stream.

use vstd::prelude::*;
use crate::json::{member_text, object, text_member, Json, JsonView, Member};
use crate::models::SyncSession;
use crate::text::{str_eq, owned, decimal, signed_decimal, push_u64, push_i64, trim_trailing_slashes, without_trailing_slashes, percent_encoded, url_encode};

verus! {

/// For how many seconds an access token is used after it was obtained. The
/// hub issues tokens for fifteen minutes; three minutes are kept as a margin.
pub const JWT_REFRESH_SECS: u64 = 720;

/// How many seconds to wait before the event stream is opened again.
pub const RECONNECT_DELAY_SECS: u64 = 5;

/// The sessions of `entries` by id; where an id occurs twice the later entry counts.
pub open spec fn sessions_by_id(entries: Seq<SyncSession>) -> Map<Seq<char>, SyncSession>
    decreases entries.len(),
{
    if entries.len() == 0 {
        Map::empty()
    } else {
        sessions_by_id(entries.drop_last()).insert(entries.last().id@, entries.last())
    }
}

/// `map` after each of `sessions` has been stored under its id, in order.
pub open spec fn stored(map: Map<Seq<char>, SyncSession>, sessions: Seq<SyncSession>) -> Map<
    Seq<char>,
    SyncSession,
>
    decreases sessions.len(),
{
    if sessions.len() == 0 {
        map
    } else {
        stored(map, sessions.drop_last()).insert(sessions.last().id@, sessions.last())
    }
}

/// The latest known state of each session, by session id.
pub struct SessionCache {
    entries: Vec<SyncSession>,
}

impl View for SessionCache {
    type V = Map<Seq<char>, SyncSession>;

    closed spec fn view(&self) -> Map<Seq<char>, SyncSession> {
        sessions_by_id(self.entries@)
    }
}

impl SessionCache {
    /// A cache that knows no session.
    pub fn new() -> (cache: Self)
        ensures
            cache@ == Map::<Seq<char>, SyncSession>::empty(),
    {
        SessionCache { entries: Vec::new() }
    }

    /// The cached session with this id.
    pub fn get(&self, id: &str) -> (found: Option<&SyncSession>)
        ensures
            match found {
                Some(s) => self@.contains_key(id@) && self@[id@] == *s,
                None => !self@.contains_key(id@),
            },
    {
        let mut i: usize = self.entries.len();
        assert(self.entries@.take(i as int) =~= self.entries@);
        while i > 0
            invariant
                i <= self.entries.len(),
                self@.contains_key(id@) == sessions_by_id(self.entries@.take(i as int)).contains_key(
                    id@,
                ),
                self@.contains_key(id@) ==> self@[id@] == sessions_by_id(
                    self.entries@.take(i as int),
                )[id@],
            decreases i,
        {
            proof {
                assert(self.entries@.take(i as int).drop_last() =~= self.entries@.take(i - 1));
            }
            if str_eq(self.entries[i - 1].id.as_str(), id) {
                return Some(&self.entries[i - 1]);
            }
            i -= 1;
        }
        None
    }

    /// Forgets the session with this id.
    pub fn remove(&mut self, id: &str)
        ensures
            final(self)@ == old(self)@.remove(id@),
    {
        let mut kept: Vec<SyncSession> = Vec::new();
        let mut i: usize = 0;
        while i < self.entries.len()
            invariant
                i <= self.entries.len(),
                sessions_by_id(kept@) == sessions_by_id(self.entries@.take(i as int)).remove(id@),
            decreases self.entries.len() - i,
        {
            proof {
                assert(self.entries@.take(i + 1).drop_last() =~= self.entries@.take(i as int));
            }
            if !str_eq(self.entries[i].id.as_str(), id) {
                let ghost before = kept@;
                kept.push(self.entries[i].clone());
                proof {
                    assert(kept@.drop_last() =~= before);
                    assert(sessions_by_id(kept@) =~= sessions_by_id(
                        self.entries@.take(i + 1),
                    ).remove(id@));
                }
            } else {
                assert(sessions_by_id(kept@) =~= sessions_by_id(self.entries@.take(i + 1)).remove(
                    id@,
                ));
            }
            i += 1;
        }
        assert(self.entries@.take(self.entries.len() as int) =~= self.entries@);
        self.entries = kept;
    }

    /// Stores a session under its id, in place of what was known of it.
    pub fn insert(&mut self, session: SyncSession)
        ensures
            final(self)@ == old(self)@.insert(session.id@, session),
    {
        self.remove(session.id.as_str());
        let ghost before = self.entries@;
        self.entries.push(session);
        proof {
            assert(self.entries@.drop_last() =~= before);
            assert(self@ =~= old(self)@.insert(session.id@, session));
        }
    }

    /// Stores each of the sessions under its id.
    pub fn store_all(&mut self, sessions: &[SyncSession])
        ensures
            final(self)@ == stored(old(self)@, sessions@),
    {
        let mut i: usize = 0;
        while i < sessions.len()
            invariant
                i <= sessions.len(),
                self@ == stored(old(self)@, sessions@.take(i as int)),
            decreases sessions.len() - i,
        {
            proof {
                assert(sessions@.take(i + 1).drop_last() =~= sessions@.take(i as int));
            }
            self.insert(sessions[i].clone());
            i += 1;
        }
        assert(sessions@.take(sessions.len() as int) =~= sessions@);
    }

}

/// An access token and the time at which it was obtained.
pub struct TokenCache {
    token: Option<String>,
    obtained_at_secs: u64,
}

impl TokenCache {
    /// The cached token, if there is one.
    pub closed spec fn token(&self) -> Option<String> {
        self.token
    }

    /// When the cached token was obtained, in seconds on the caller's clock.
    pub closed spec fn obtained_at(&self) -> u64 {
        self.obtained_at_secs
    }

    /// Whether the cached token is still to be used at `now_secs`.
    pub open spec fn is_fresh(&self, now_secs: u64) -> bool {
        self.token() is Some && now_secs - self.obtained_at() < JWT_REFRESH_SECS
    }

    /// A cache without a token.
    pub fn new() -> (cache: Self)
        ensures
            cache.token() is None,
    {
        TokenCache { token: None, obtained_at_secs: 0 }
    }

    /// The token to use at `now_secs`, or `None` when a new one has to be
    /// obtained: there is none yet, or the cached one is twelve minutes old.
    pub fn get(&self, now_secs: u64) -> (found: Option<String>)
        ensures
            self.is_fresh(now_secs) ==> found == self.token(),
            !self.is_fresh(now_secs) ==> found is None,
    {
        match &self.token {
            Some(t) => {
                if now_secs < self.obtained_at_secs || now_secs - self.obtained_at_secs
                    < JWT_REFRESH_SECS {
                    Some(t.clone())
                } else {
                    None
                }
            },
            None => None,
        }
    }

    /// Remembers a token that was obtained at `now_secs`.
    pub fn store(&mut self, token: String, now_secs: u64)
        ensures
            final(self).token() == Some(token),
            final(self).obtained_at() == now_secs,
    {
        self.token = Some(token);
        self.obtained_at_secs = now_secs;
    }
}

/// A token that was stored is handed out for the next twelve minutes, and
/// not after them.
pub proof fn lemma_token_lifetime(cache: TokenCache, now_secs: u64)
    requires
        cache.token() is Some,
        cache.obtained_at() <= now_secs,
    ensures
        cache.is_fresh(now_secs) <==> now_secs < cache.obtained_at() + JWT_REFRESH_SECS,
{
}


/// The address of the request that exchanges the API key for a token.
pub open spec fn auth_url_of(base: Seq<char>) -> Seq<char> {
    base + "/api/auth"@
}

/// What is sent to exchange the API key for a token: the key as `accessToken`.
pub open spec fn auth_body_of(api_key: Seq<char>) -> JsonView {
    JsonView::Object(seq![text_member("accessToken"@, api_key)])
}

/// The address of a page of messages.
pub open spec fn messages_url_of(
    base: Seq<char>,
    since: int,
    limit: nat,
    token: Seq<char>,
    cursor: Option<Seq<char>>,
) -> Seq<char> {
    let head = base + "/api/sync/messages?since="@ + signed_decimal(since) + "&limit="@ + decimal(
        limit,
    ) + "&token="@ + percent_encoded(token);
    match cursor {
        Some(c) => head + "&cursor="@ + percent_encoded(c),
        None => head,
    }
}

/// The address of the sessions that changed since `updated_since`.
pub open spec fn sessions_url_of(base: Seq<char>, updated_since: int, token: Seq<char>) -> Seq<
    char,
> {
    base + "/api/sync/sessions?updatedSince="@ + signed_decimal(updated_since) + "&token="@
        + percent_encoded(token)
}

/// The address of the event stream.
pub open spec fn events_url_of(base: Seq<char>, token: Seq<char>) -> Seq<char> {
    base + "/api/events?all=true&token="@ + percent_encoded(token)
}

/// What the event source handed over.
#[derive(Debug)]
pub enum StreamItem {
    /// The stream was opened.
    Open,
    /// A message with this data arrived.
    Message(String),
    /// The hub ended the stream.
    Ended,
    /// The stream failed.
    Failed,
}

/// What to do with an item of the event stream.
#[derive(Debug)]
pub enum StreamAction {
    /// Go on reading.
    Continue,
    /// Decode this data and hand the event to the subscriber; data that
    /// cannot be decoded is skipped.
    Deliver(String),
    /// Close the stream, wait [`RECONNECT_DELAY_SECS`], get a token and open it again.
    Reconnect,
}

/// Decides what to do with an item of the event stream.
pub fn on_stream_item(item: StreamItem) -> (action: StreamAction)
    ensures
        match item {
            StreamItem::Open => action is Continue,
            StreamItem::Message(data) => if data@.len() == 0 {
                action is Continue
            } else {
                action == StreamAction::Deliver(data)
            },
            StreamItem::Ended => action is Reconnect,
            StreamItem::Failed => action is Reconnect,
        },
{
    match item {
        StreamItem::Open => StreamAction::Continue,
        StreamItem::Message(data) => if data.as_str().is_empty() {
            StreamAction::Continue
        } else {
            StreamAction::Deliver(data)
        },
        StreamItem::Ended => StreamAction::Reconnect,
        StreamItem::Failed => StreamAction::Reconnect,
    }
}

/// What happened while the indexer follows the event stream.
#[derive(Debug)]
pub enum SubscribeEvent {
    /// No token could be obtained.
    TokenFailed,
    /// This token was obtained.
    TokenObtained(String),
    /// The open stream handed this over.
    Item(StreamItem),
}

/// What the indexer does next while it follows the event stream.
#[derive(Debug)]
pub enum SubscribeAction {
    /// Wait this many seconds, then get a token.
    WaitThenAuthenticate(u64),
    /// Open the stream at this address.
    Open(String),
    /// Go on reading.
    Continue,
    /// Decode this data and hand the event to the subscriber; data that
    /// cannot be decoded is skipped.
    Deliver(String),
    /// Close the stream, wait this many seconds, then get a token.
    CloseWaitThenAuthenticate(u64),
}

/// The hub as the indexer sees it: where it is, the key that opens it, the
/// token in use and the sessions it told of.
pub struct HubClient {
    pub base_url: String,
    pub api_key: String,
    pub tokens: TokenCache,
    pub sessions: SessionCache,
}

impl HubClient {
    /// A client for the hub at `base_url`, whose trailing slashes are dropped.
    pub fn new(base_url: &str, api_key: &str) -> (client: Self)
        ensures
            client.base_url@ == without_trailing_slashes(base_url@),
            client.api_key@ == api_key@,
            client.tokens.token() is None,
            client.sessions@ == Map::<Seq<char>, SyncSession>::empty(),
    {
        HubClient {
            base_url: trim_trailing_slashes(base_url),
            api_key: owned(api_key),
            tokens: TokenCache::new(),
            sessions: SessionCache::new(),
        }
    }

    /// The address of the request that exchanges the API key for a token.
    pub fn auth_url(&self) -> (url: String)
        ensures
            url@ == auth_url_of(self.base_url@),
    {
        let mut url = self.base_url.clone();
        url.push_str("/api/auth");
        url
    }

    /// The body of the request that exchanges the API key for a token.
    pub fn auth_body(&self) -> (body: Json)
        ensures
            body@ == auth_body_of(self.api_key@),
    {
        let mut members: Vec<Member> = Vec::new();
        members.push(member_text("accessToken", self.api_key.as_str()));
        let body = object(members);
        assert(body@->Object_0 =~= auth_body_of(self.api_key@)->Object_0);
        body
    }

    /// The address of a page of messages written at or after `since`.
    pub fn messages_url(&self, since: i64, limit: u32, token: &str, cursor: Option<&str>) -> (url:
        String)
        ensures
            url@ == messages_url_of(
                self.base_url@,
                since as int,
                limit as nat,
                token@,
                match cursor {
                    Some(c) => Some(c@),
                    None => None,
                },
            ),
    {
        let mut url = self.base_url.clone();
        url.push_str("/api/sync/messages?since=");
        push_i64(&mut url, since);
        url.push_str("&limit=");
        push_u64(&mut url, limit as u64);
        url.push_str("&token=");
        url.push_str(url_encode(token).as_str());
        if let Some(c) = cursor {
            url.push_str("&cursor=");
            url.push_str(url_encode(c).as_str());
        }
        url
    }

    /// The address of the sessions that changed at or after `updated_since`.
    pub fn sessions_url(&self, updated_since: i64, token: &str) -> (url: String)
        ensures
            url@ == sessions_url_of(self.base_url@, updated_since as int, token@),
    {
        let mut url = self.base_url.clone();
        url.push_str("/api/sync/sessions?updatedSince=");
        push_i64(&mut url, updated_since);
        url.push_str("&token=");
        url.push_str(url_encode(token).as_str());
        url
    }

    /// The address of the event stream.
    pub fn events_url(&self, token: &str) -> (url: String)
        ensures
            url@ == events_url_of(self.base_url@, token@),
    {
        let mut url = self.base_url.clone();
        url.push_str("/api/events?all=true&token=");
        url.push_str(url_encode(token).as_str());
        url
    }

    /// Decides how the subscription to the event stream goes on. It never
    /// ends: without a token the indexer waits and asks again; with one it
    /// opens the stream; and when the stream ends or fails it closes it,
    /// waits and starts over. The wait is always [`RECONNECT_DELAY_SECS`].
    pub fn on_subscribe_event(&self, event: SubscribeEvent) -> (action: SubscribeAction)
        ensures
            match event {
                SubscribeEvent::TokenFailed => action == SubscribeAction::WaitThenAuthenticate(
                    RECONNECT_DELAY_SECS,
                ),
                SubscribeEvent::TokenObtained(token) => action matches SubscribeAction::Open(url)
                    && url@ == events_url_of(self.base_url@, token@),
                SubscribeEvent::Item(StreamItem::Open) => action is Continue,
                SubscribeEvent::Item(StreamItem::Message(data)) => if data@.len() == 0 {
                    action is Continue
                } else {
                    action == SubscribeAction::Deliver(data)
                },
                SubscribeEvent::Item(StreamItem::Ended) => action
                    == SubscribeAction::CloseWaitThenAuthenticate(RECONNECT_DELAY_SECS),
                SubscribeEvent::Item(StreamItem::Failed) => action
                    == SubscribeAction::CloseWaitThenAuthenticate(RECONNECT_DELAY_SECS),
            },
    {
        match event {
            SubscribeEvent::TokenFailed => SubscribeAction::WaitThenAuthenticate(
                RECONNECT_DELAY_SECS,
            ),
            SubscribeEvent::TokenObtained(token) => SubscribeAction::Open(
                self.events_url(token.as_str()),
            ),
            SubscribeEvent::Item(item) => match on_stream_item(item) {
                StreamAction::Continue => SubscribeAction::Continue,
                StreamAction::Deliver(data) => SubscribeAction::Deliver(data),
                StreamAction::Reconnect => SubscribeAction::CloseWaitThenAuthenticate(
                    RECONNECT_DELAY_SECS,
                ),
            },
        }
    }

    /// Takes note of the sessions that the hub returned.
    pub fn sessions_fetched(&mut self, sessions: &[SyncSession])
        ensures
            final(self).sessions@ == stored(old(self).sessions@, sessions@),
            final(self).base_url == old(self).base_url,
            final(self).api_key == old(self).api_key,
            final(self).tokens == old(self).tokens,
    {
        self.sessions.store_all(sessions);
    }

    /// The cached session with this id.
    pub fn get_session(&self, id: &str) -> (found: Option<SyncSession>)
        ensures
            match found {
                Some(s) => self.sessions@.contains_key(id@) && self.sessions@[id@] == s,
                None => !self.sessions@.contains_key(id@),
            },
    {
        match self.sessions.get(id) {
            Some(s) => Some(s.clone()),
            None => None,
        }
    }

    /// Forgets the session with this id.
    pub fn remove_session(&mut self, id: &str)
        ensures
            final(self).sessions@ == old(self).sessions@.remove(id@),
            final(self).base_url == old(self).base_url,
            final(self).api_key == old(self).api_key,
            final(self).tokens == old(self).tokens,
    {
        self.sessions.remove(id);
    }
}

} // verus!
