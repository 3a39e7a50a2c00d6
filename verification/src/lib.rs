//! An in-memory ephemeris kernel engine.
//!
//! The crate ingests astrodynamics data files ("kernels") as byte buffers,
//! classifies and stores them, parses text-kernel variable assignments into a
//! typed pool, indexes binary ephemeris segments by body pair and time
//! interval, and prepares segment data for polynomial evaluation.
//!
//! Double-precision quantities are carried as their IEEE 754 bit patterns
//! (`u64`), so that all bookkeeping, ordering and exact conversions are
//! verified integer logic; genuine real arithmetic is left to the caller.

use vstd::prelude::*;

pub mod error_handling;
pub mod file_system;
pub mod text;
pub mod dpword;
pub mod kernel_pool;
pub mod spk_reader;
pub mod ephemeris;
pub mod body_data;
pub mod ck_reader;
pub mod kernel_system;

verus! {

/// Create a ready-to-use engine context: the kernel store, the variable
/// pool and the segment index, all empty.
pub fn initialize() -> (r: error_handling::SpiceResult<kernel_system::KernelSystem>)
    ensures
        r is Ok,
        r->Ok_0.wf(),
        r->Ok_0.vfs@ == file_system::model_empty(),
        r->Ok_0.pool@ == Map::<Seq<char>, kernel_pool::PoolValueModel>::empty(),
        r->Ok_0.spk.spec_segments().len() == 0,
{
    Ok(kernel_system::initialize_kernel_system())
}

/// The crate version string.
pub fn version() -> (r: &'static str)
    ensures
        r@ == "0.1.0"@,
{
    "0.1.0"
}

/// A human-readable build description.
pub fn build_info() -> (r: String)
    ensures
        r@ == "RustSPICE v0.1.0 - kernel-backed ephemeris engine"@,
{
    String::from_str("RustSPICE v0.1.0 - kernel-backed ephemeris engine")
}

} // verus!
