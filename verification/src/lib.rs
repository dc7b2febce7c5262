//! Verified core of the AISH command-line automation framework.

pub mod error;
pub mod text;
pub mod safe_path;
pub mod path;
pub mod terminal;
pub mod logfmt;
pub mod jsonl;
pub mod json;
pub mod provider;
pub mod protocol;
pub mod catalog;
pub mod session;
pub mod plugins;
pub mod capture;
pub mod markdown;
pub mod domain;
pub mod script;
pub mod openai;
pub mod cli;
pub mod events;
pub mod derived;
pub mod render;
pub mod watch;
pub mod jsonrpc;
pub mod host;
pub mod readback;
pub mod event_log;
