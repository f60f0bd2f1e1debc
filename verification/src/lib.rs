//! The core of a static file server that accepts new content as an uploaded
//! archive: a single-slot buffered reader over a push source of byte chunks,
//! the rules that drive one upload from its parts to a reload request, and
//! the arbitration between restarting and stopping the serving loop.

pub mod args;
pub mod auth;
pub mod buffer;
pub mod cache;
pub mod config;
pub mod fieldreader;
pub mod ingest;
pub mod reload;
pub mod sanitize;
pub mod stream;
pub mod text;
pub mod textmap;
