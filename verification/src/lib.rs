//! Audits license compliance for a package and its transitive dependencies:
//! parses declared license expressions, resolves the runtime dependency
//! graph, discovers and scores shipped license texts, and decides whether a
//! consumer's license permits including a dependency under its license.

pub mod bundle;
pub mod check;
pub mod discovery;
pub mod license;
pub mod load;
pub mod options;
pub mod query;
pub mod textops;

use vstd::prelude::*;

verus! {

/// Three-valued answer of the compatibility oracle.
#[derive(Debug, Clone, Copy, PartialEq, Eq, Structural)]
pub enum Compat {
    Yes,
    No,
    Unknown,
}

} // verus!
