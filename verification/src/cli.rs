//! The command-line arguments of the batch driver.

use vstd::prelude::*;

verus! {

/// The arguments the batch driver takes: the top-level directory that holds
/// the subjects' directories.
pub struct Cli {
    /// Top level directory containing subjects' directories.
    pub data_path: String,
}

} // verus!
