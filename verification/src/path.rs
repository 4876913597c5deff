//! Paths of rollouts, carried through without being looked into.

use vstd::prelude::*;

verus! {

/// `std::path::PathBuf`: the library keeps such values and hands them back.
#[verifier::external_type_specification]
#[verifier::external_body]
pub struct ExPathBuf(std::path::PathBuf);

} // verus!
