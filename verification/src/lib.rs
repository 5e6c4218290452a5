//! A toolbox for incident response. Its core carves files out of a raw
//! device or disk image: [`signature`] tells what a slice of bytes is,
//! [`scanner`] turns the windows read from the source into carves,
//! [`session`] names what a run produces, and [`carve`] orders a run. Around
//! it stand the tools that read a journal, a captured frame, the mail
//! records and the look-alike names of a domain, a crawled page, a
//! document and a command line.
//!
//! The library does no input or output. Every other function is verified
//! against its contract; the few that call another crate are trusted, are
//! marked as such, and say what is claimed of the call.

pub mod args;
pub mod carve;
pub mod certs;
pub mod crawl;
pub mod diskinfo;
pub mod dispatch;
pub mod gallery;
pub mod journal;
pub mod mail;
pub mod numbers;
pub mod packet;
pub mod pattern;
pub mod pdf;
pub mod scanner;
pub mod session;
pub mod signature;
pub mod sorted;
pub mod tally;
pub mod text;
pub mod typosquat;
pub mod watch;
pub mod words;
