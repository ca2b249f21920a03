//! An in-memory key-value server's core: a store of text and set values, the command
//! table and dispatcher that run one line of the text protocol against it, the
//! response framing, and the decisions of a connection session.

pub mod commands;
pub mod config;
pub mod database;
pub mod laws;
pub mod server;
pub mod text;
