//! A small agent library: it parses tool-call requests out of assistant text,
//! carries them over a record-oriented RPC control channel, and sequences
//! their execution inside a conversation turn.
//!
//! The JSON wire format is the library's own: `parse` reads it, `ser`
//! writes it, and `roundtrip` proves the two are exact inverses. On top of
//! that stand the tool-call `parser`, the `wire` codec, the dispatch
//! `server`, the `client` codecs, and the `session` that sequences a turn.

pub mod api;
pub mod chars;
pub mod client;
pub mod config;
pub mod converter;
pub mod file_analyzer;
pub mod file_tool;
pub mod interface;
pub mod json;
pub mod logging;
pub mod numbers;
pub mod parse;
pub mod parser;
pub mod roundtrip;
pub mod ser;
pub mod server;
pub mod session;
pub mod web_search;
pub mod wire;
