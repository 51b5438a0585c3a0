//! Verified core of a pair of small file-management tools: a trash-based
//! deleter and a directory lister.
//!
//! The library holds the state logic worth proving: the persisted registry
//! that maps original paths to their locations inside the trash directory,
//! the JSON codec for that registry, the four trash operations expressed as
//! transitions over a model of the filesystem, and the string formatting the
//! lister shares with the trash tool.  The surrounding process — argument
//! parsing, prompting, and the actual filesystem calls — stays outside and
//! feeds this library plain values.

use vstd::prelude::*;

pub mod codec;
pub mod fsmodel;
pub mod lister;
pub mod ops;
pub mod parse_arguments;
pub mod registry;
pub mod strutil;

verus! {

/// The error taxonomy of both tools.
///
/// `NotFound` is a path absent at resolution time, or a trash-side object
/// missing when its registry entry says it should exist.  `IoError` is an
/// underlying move/remove/read/write failure.  `RegistryCorrupt` is a
/// malformed persisted registry document.  `IncorrectArguments` means no
/// actionable command-line input was given.
#[derive(Debug)]
pub enum Error {
    NotFound { path: String },
    IoError { path: String },
    RegistryCorrupt,
    IncorrectArguments,
}

} // verus!
