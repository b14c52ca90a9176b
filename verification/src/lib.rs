//! Verified core of the EasyTier manager desktop application: the text,
//! path, digest and process-listing logic behind its commands.
//!
//! - [`text`]: character classes, trimming, searching and lines, as std's
//!   `str` methods do them.
//! - [`decimal`]: rendering and parsing unsigned integers.
//! - [`path`]: Unix and Windows path components, file names, prefixes and equality.
//! - [`digest`]: published SHA-256 digests and the archive check.
//! - [`process`]: reading the `ps` listing of running cores.
//! - [`install`]: confining paths, picking executables out of an archive,
//!   checking the unpacked CLI, and swapping the new core in.
//! - [`elevated`]: what the macOS launcher, stopper and terminal get.
//! - [`commands`]: command replies, the cold-start decision, log lines.

pub mod text;
pub mod decimal;
pub mod path;
pub mod digest;
pub mod process;
pub mod elevated;
pub mod install;
pub mod commands;
