//! Verified core of a console-to-message-bus bridge.
//!
//! The library holds the bridging logic that every role (console bridge,
//! regex transformer, bot reader, bot writer) is built on: the `{{...}}`
//! template engine, the free-form argument tree with shallow merge and
//! typed coercion, the JSON envelope codec, the console supervisor's
//! pending-write state machine, the task scheduler decisions, and the
//! text utilities (escaping, emoji substitution, capture handling).
//! All I/O (broker, TCP console, chat SDK, config files) lives outside.

pub mod emoji;
pub mod autolog;
pub mod bridge;
pub mod config;
pub mod envelope;
pub mod errors;
pub mod json;
pub mod numtext;
pub mod value;
pub mod writer;
pub mod rcon;
pub mod reader;
pub mod rx;
pub mod supervisor;
pub mod tasks;
pub mod template;
pub mod transform;
pub mod text;
pub mod textops;

pub use textops::escape_string;
