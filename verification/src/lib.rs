//! Decoder for the binary message stream of a logical-replication output
//! plugin ("pgoutput"): a cursor-based reader over a byte buffer and a
//! dispatcher that classifies each message by its one-byte tag and assembles
//! a typed record.

pub mod laws;
pub mod messages;
pub mod parse;
pub mod reader;
pub mod wire;
