//! The command-line configuration consumed by the program built around the
//! library: where to read, where to write, and the two strictness flags.

use vstd::prelude::*;

verus! {

/// Input and output locations (`None` meaning the standard streams) and the
/// two strictness flags handed to the substitutor.
pub struct CliConfig {
    pub input: Option<String>,
    pub output: Option<String>,
    pub no_unset: bool,
    pub no_empty: bool,
}

} // verus!
