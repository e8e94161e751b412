use vstd::prelude::*;

verus! {

/// Command-line arguments: where to read the configuration from.
#[derive(Clone, Debug)]
pub struct Arguments {
    /// Path of the configuration file; written with the defaults when missing.
    pub config: Option<String>,
}

} // verus!
