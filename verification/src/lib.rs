//! A terminal companion for a repository-hosting web service: the decisions
//! of its command prompt, its push/pull of file trees, its project scans and
//! its small local server, with their contracts.

pub mod command;
pub mod config;
pub mod deps;
pub mod git;
pub mod ignore;
pub mod json;
pub mod listing;
pub mod metrics;
pub mod order;
pub mod ports;
pub mod remote;
pub mod scan;
pub mod server;
pub mod text;
