//! The verified core of a proxy that pools Codex and Copilot subscriptions for opencode:
//! the opencode configuration it writes, the request identity it keeps, the token and
//! usage decisions it takes, and the JSON documents that carry them.
pub mod correlation;
pub mod json;
pub mod jsonc;
pub mod jwt;
pub mod models;
pub mod opencode;
pub mod server;
pub mod text;
pub mod tokens;
pub mod usage;
