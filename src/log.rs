//! The diagnostic logging switch. The log itself is written by the program
//! around the library; this holds only whether it is on.

use vstd::prelude::*;

verus! {

/// Whether diagnostic logging is on for this run.
pub struct LogSettings {
    pub enabled: bool,
}

impl LogSettings {
    /// Settings with logging on or off.
    pub fn new(enabled: bool) -> (r: LogSettings)
        ensures
            r.enabled == enabled,
    {
        LogSettings { enabled }
    }
}

/// Whether logging is on.
pub fn is_enabled(settings: &LogSettings) -> (r: bool)
    ensures
        r == settings.enabled,
{
    settings.enabled
}

} // verus!
