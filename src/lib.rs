//! Deterministic synthetic sparse-ternary datasets, their binary file format,
//! and the measurement and scoring arithmetic of the benchmark harness.

pub mod codec;
pub mod dataset;
pub mod generate;
pub mod harness;
pub mod naming;
pub mod schema;
pub mod stats;
pub mod vector;

use vstd::prelude::*;

verus! {

/// Which substrate variants a benchmark run covers.
#[derive(Clone, Copy, Debug, PartialEq, Eq, Structural)]
pub enum VsaVariant {
    /// Every variant.
    All,
    /// The packed trit vector only.
    Packed,
    /// The bitsliced trit vector only.
    Bitsliced,
    /// The carry-save bundle (hybrid) only.
    Hybrid,
    /// The block-sparse trit vector only, for large dimensions.
    BlockSparse,
}

impl Default for VsaVariant {
    fn default() -> (r: Self)
        ensures
            r == VsaVariant::All,
    {
        VsaVariant::All
    }
}

} // verus!
