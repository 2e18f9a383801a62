//! Reconciliation of a library of files against a catalog of known-good
//! metadata.
//!
//! A catalog names, for each game of a system, the files that make it up:
//! their names, sizes and digests. This library decides what a file on disk
//! is, by its size and digest, where it belongs, and whether a file that was
//! filed is still what the catalog says. It reads no file, runs no tool and
//! talks to no store: it is handed what was found, and answers with what is
//! to be done.
//!
//! - [`checksum`]: sizes and digests of byte streams, without the header of
//!   a system.
//! - [`sevenzip`]: the listing of an archive, and the calls that change one.
//! - [`catalog`]: games, roms and romfiles, with their lookups and updates.
//! - [`resolve`]: which rom a file is.
//! - [`layout`]: where a rom is filed.
//! - [`import_roms`], [`jbfolder`]: what is to be done with a new file, an
//!   archive, a disc image or a folder.
//! - [`check_roms`]: which filed files go to quarantine.
//!
//! Contracts are stated over the views of the records, sequences of
//! characters and bytes. The calls into other crates stand behind small
//! functions whose contracts are trusted: path handling in [`path`], lower
//! case in [`text`], digests in [`checksum`].

pub mod catalog;
pub mod check_roms;
pub mod checksum;
pub mod import_roms;
pub mod jbfolder;
pub mod layout;
pub mod model;
pub mod path;
pub mod resolve;
pub mod sevenzip;
pub mod text;
