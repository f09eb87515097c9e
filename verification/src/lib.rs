//! A verified core for a local command broker: a command-line client
//! delegates privileged operations on a blogging service to a browser
//! extension peer.  The broker speaks one request/response envelope over
//! two transports (a local socket carrying JSON text frames, and a
//! length-prefixed standard-stream protocol), correlates each response to
//! the request it answers, and dispatches typed commands on both sides.

pub mod article;
pub mod auth;
pub mod cli;
pub mod client;
pub mod config;
pub mod editor;
pub mod envelope;
pub mod errors;
pub mod export;
pub mod frame;
pub mod host;
pub mod html_to_md;
pub mod image;
pub mod json;
pub mod models;
pub mod rate_limiter;
pub mod table;
pub mod template;
pub mod text;
