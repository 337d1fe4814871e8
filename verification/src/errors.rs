//! Why the arguments of a build could not be read.

use vstd::prelude::*;

verus! {

/// What is missing from, or wrong with, the arguments of a build.
#[derive(Clone, Copy, PartialEq, Eq, Structural, Debug)]
pub enum Error {
    InvalidOutDir,
    CrateNameMissing,
    NoEnvTargetCrateSet,
    TargetPathMissing,
    SrcLocationMissing,
}

} // verus!
