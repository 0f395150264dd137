//! A local-first git client's core, verified: the parsers of git's output, the patch cutter,
//! the log graph's lanes, the error diagnosis, the search syntax and the server's rules.
pub mod text;
pub mod patch;
pub mod progress;
pub mod records;
pub mod model;
pub mod status_v2;
pub mod error;
pub mod read;
pub mod init;
pub mod clone;
pub mod commit;
pub mod branch;
pub mod search;
pub mod web;
pub mod registry;
pub mod jobs;
pub mod config;
pub mod fs;
pub mod exec;
pub mod ws;
pub mod discover;
pub mod repos;
pub mod askpass;
pub mod indexing;
pub mod server;
pub mod assets;
pub mod cli;
pub mod recents;
