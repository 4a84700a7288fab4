//! Tape archives: reading the command line of `tar`, choosing what goes into an
//! archive and what comes out of it, and the headers in between.
//!
//! The library decides; it opens no file and writes to no stream. Headers are
//! blocks of bytes that are written and read through the `tar` crate.

pub mod archive;
pub mod args;
pub mod bytes;
pub mod calendar;
pub mod compression;
pub mod create;
pub mod exclude;
pub mod extract;
pub mod glob;
pub mod header;
pub mod listing;
pub mod member;
pub mod mode;
pub mod mtime;
pub mod number;
pub mod options;
pub mod path;
pub mod run;
pub mod text;
pub mod transform;
pub mod words;
