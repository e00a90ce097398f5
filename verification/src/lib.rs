//! The Mainly Norfolk folk archive and waterwaysongs.info, as typed records.
pub mod text;
pub mod dom;
pub mod models;
pub mod error;
pub mod json;
pub mod client;
pub mod commands;
pub mod parse;
pub mod archive;
pub mod mcp;
