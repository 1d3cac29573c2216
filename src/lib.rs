//! A protocol engine for the block-game wire protocol (revision 756): varints,
//! framing primitives, per-phase packet parsers, the response builder, login
//! checks, and a per-connection state machine that performs no I/O itself.
pub mod varint;
pub mod parse;
pub mod state;
pub mod data;
pub mod builder;
pub mod auth;
pub mod packets;
pub mod server;
pub mod play;
pub mod connection;
