//! The logic of a small read-only WebDAV server.

pub mod args;
pub mod auth;
pub mod base64;
pub mod body;
pub mod bytes;
pub mod conditional;
pub mod connection;
pub mod date;
pub mod dav;
pub mod escape;
pub mod glob;
pub mod http;
pub mod listener;
pub mod listing;
pub mod log;
pub mod mime;
pub mod number;
pub mod path;
pub mod privileges;
pub mod range;
pub mod safe;
pub mod seqs;
pub mod setup;
pub mod size;
pub mod socket;
pub mod text;
pub mod transfer;
