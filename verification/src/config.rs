//! Engine configuration: where the submission store lives and which command
//! templates compile and run a submission.  The surrounding application reads
//! these from a configuration file.

use vstd::prelude::*;

verus! {

/// The submission store's location.
pub struct Database {
    pub url: String,
}

/// The command templates of the local execution path.  `compile_cmd` may
/// carry the `{{src}}` placeholder for the source path.
pub struct Execution {
    pub compile_cmd: String,
    pub exec_cmd: String,
}

/// The engine's configuration.
pub struct Config {
    pub database: Database,
    pub execution: Execution,
}

} // verus!
