//! Verified core of a Language Server Protocol client: protocol message
//! parsing, notification and transport logs, text synchronisation and
//! session bookkeeping.
pub mod strings;
pub mod text;
pub mod json;
pub mod types;
pub mod logs;
pub mod notify;
pub mod transport;
pub mod config;
pub mod paths;
pub mod uri;
pub mod sync;
pub mod parse;
pub mod completion;
pub mod windows;
pub mod hover;
pub mod documents;
pub mod incoming;
pub mod framing;
pub mod order;
pub mod diagnostics;
pub mod capabilities;
pub mod params;
pub mod plain;
pub mod session_table;
pub mod decode;
pub mod initialize;
