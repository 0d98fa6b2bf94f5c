//! An intercepting reverse proxy core for agentic model APIs: prefix routing,
//! a forbidden-call policy over JSON bodies, content-addressed cache keys and
//! a streaming transducer that screens server-sent events frame by frame.

pub mod text;
pub mod json;
pub mod routing;
pub mod interception;
pub mod config;
pub mod auth;
pub mod cache;
pub mod buffer;
pub mod streaming;
pub mod networking;
pub mod wire;
