//! Content-addressed working-copy synchronisation: the diff, stage, push and
//! pull pipeline over manifests, change logs and content identifiers.

pub mod path;
pub mod ordered;
pub mod content_id;
pub mod log;
pub mod object;
pub mod manifest;
pub mod changes;
pub mod diff;
pub mod stage;
pub mod push;
pub mod pull;
pub mod config;
