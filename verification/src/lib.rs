//! Core logic of two services around a conversational-agent hub: a search
//! indexer that mirrors the hub's messages into a hybrid search index, and
//! a machine agent that keeps a control channel to the hub and carries TCP
//! tunnels over it.
//!
//! The library decides and computes; it never reads a socket, a file or a
//! clock. Callers hand it what they read and carry out what it returns.
//! Every function is verified against its contract. The few calls into
//! other crates (`serde_json`, `base64`, `url`, `urlencoding`, `uuid`) stand
//! behind small trusted functions whose contracts say what is assumed.
//!
//! The indexer:
//! - [`text_extract`]: message content to role-tagged text segments
//! - [`chunker`]: segments of one session to embedding-sized chunks
//! - [`syncer`]: batches to documents, the catch-up pass, live events
//! - [`hub_client`]: session cache, token lifetime, request addresses
//! - [`indexer`], [`embedder`]: requests to the engine and the embedder
//! - [`search`]: grouping and ranking of hits
//! - [`state`], [`config`], [`web`]: stored values, settings, frontend rules
//!
//! The agent:
//! - [`socket`]: frames, packets, handshake, acknowledgements
//! - [`connection`]: events, payloads, reconnect waits
//! - [`tunnel`]: the table of tunnels and the read pump's events
//! - [`agent_config`], [`metadata`], [`register`]: identity and registration
//!
//! Shared: [`text`] for characters and strings, [`json`] for JSON values,
//! [`models`] for the data that travels.

pub mod text;
pub mod json;
pub mod models;
pub mod text_extract;
pub mod chunker;
pub mod hub_client;
pub mod syncer;
pub mod indexer;
pub mod embedder;
pub mod search;
pub mod state;
pub mod config;
pub mod web;
pub mod socket;
pub mod connection;
pub mod tunnel;
pub mod agent_config;
pub mod metadata;
pub mod register;
