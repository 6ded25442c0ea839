//! A project scaffolding library: a declarative manifest describes a tree of
//! files and folders, and the library turns it into a validated, ordered plan
//! of filesystem actions, refusing to overwrite anything that already exists.

pub mod args;
pub mod codec;
pub mod env;
pub mod handler;
pub mod subst;

use vstd::prelude::*;

verus! {

/// The ways a scaffolding run can fail.
#[derive(Debug, PartialEq, Eq)]
pub enum ScaffoldError {
    /// The manifest source could not be read or fetched.
    ManifestUnavailable,
    /// A required field was missing, a node had an unknown type tag, or a
    /// file's transport content was not a quoted escaped string.
    MalformedManifest,
    /// A name in the tree collides with an entry already present under the
    /// target root; carries the offending name and whether it was a folder.
    AlreadyExists { name: Vec<u8>, is_folder: bool },
    /// Directory creation or file writing failed during materialization.
    IoError,
}

} // verus!
