//! A declarative command-line token rewriting engine.
//!
//! A configuration declares keyword rules (exact words, prefixed parameters,
//! value mappings, defaults); a validated rule table rewrites a raw token
//! sequence into its expanded form, ready for display or execution.

pub mod cli;
pub mod cmdline;
pub mod command;
pub mod config;
pub mod engine;
pub mod error;
pub mod handler;
pub mod laws;
pub mod optdef;
pub mod rules;
pub mod strutil;
