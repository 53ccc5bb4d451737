//! Reported logging state.  The logging subsystem itself lives outside
//! the core; these functions compute the strings it reports.

use vstd::prelude::*;
use vstd::string::StringExecFns;

verus! {

/// The configured log level.
pub fn get_log_level() -> (r: String)
    ensures
        r@ == seq!['I', 'N', 'F', 'O'],
{
    proof {
        reveal_strlit("INFO");
    }
    let r = String::from_str("INFO");
    proof {
        assert(r@ =~= seq!['I', 'N', 'F', 'O']);
    }
    r
}

/// The message recorded when the application shuts down.
pub fn log_shutdown_info() -> (r: String)
    ensures
        r@ == "=== Mod Launcher Shutting Down ==="@,
{
    String::from_str("=== Mod Launcher Shutting Down ===")
}

} // verus!
