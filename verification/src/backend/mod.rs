//! The state of the application around the sorting: selections, naming status, item sources.

pub mod fs_hierarchy;
pub mod item_source;
pub mod lazy_group;
pub mod progress;
pub mod main_hierarchy;
pub mod selection;
pub mod sorted_names;

use vstd::prelude::*;

verus! {

/// A path of the file system.
#[verifier::external_type_specification]
#[verifier::external_body]
pub struct ExPathBuf(std::path::PathBuf);

/// `PathBuf::clone`, which std documents as returning a copy of the path: the copy is the
/// same path.
pub assume_specification[ <std::path::PathBuf as Clone>::clone ](p: &std::path::PathBuf) -> (r: std::path::PathBuf)
    ensures
        r == *p,
;

/// An error of any kind.
#[verifier::external_type_specification]
#[verifier::external_body]
pub struct ExAnyhowError(anyhow::Error);

} // verus!
