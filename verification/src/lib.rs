//! A client for a line-oriented, binary-safe key-value store protocol.
//!
//! The crate holds the protocol itself and proves it: how a typed command
//! line becomes a request on the wire ([`parse::parse_command`]), how the
//! bytes of a reply become a [`response::Response`] ([`parse::parse_response`]), and
//! which step a [`connection::Connection`] takes next in a round trip. It
//! performs no input or output; the caller moves the bytes.
//!
//! - [`wire`] and [`command`] say what the bytes mean, as mathematics.
//! - [`parse`] and [`decimal`] hold the code that reads and writes them.
//! - [`connection`] holds the steps of a round trip and the named commands.
//! - [`laws`] and [`requests`] hold what is proved of all of them together.

pub mod command;
pub mod connection;
pub mod decimal;
pub mod enums;
pub mod laws;
pub mod parse;
pub mod requests;
pub mod response;
pub mod wire;
