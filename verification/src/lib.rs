//! An AI API gateway. Clients point their SDK at the gateway, which holds the
//! real provider credentials, forwards the request unchanged, and records
//! token usage on the way back.
//!
//! This crate holds the gateway's decisions, with their contracts: what a
//! configuration must look like, which provider a path picks, which headers
//! and which credential go upstream, what is answered when something fails,
//! and what a response has used. Sockets and files are left to the program
//! around it.
pub mod config;
pub mod headers;
pub mod json;
pub mod line_endings;
pub mod names;
pub mod provider;
pub mod proxy;
pub mod sniffer;
pub mod sse;
pub mod text;
pub mod usage;
