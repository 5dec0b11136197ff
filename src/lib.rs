//! Request-integrity checks, whitelisted device commands and parsers for
//! the text those commands print, for a remote-control daemon on a handset.

pub mod text;
pub mod phone;
pub mod seconds;
pub mod parse;
pub mod nonce;
pub mod auth;
pub mod command;
pub mod api;
pub mod config;
