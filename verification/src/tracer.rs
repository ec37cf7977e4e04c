//! The verbosity of the tracing set up at start.
use vstd::prelude::*;

verus! {

/// The log filter for a verbosity level given as a count of `-v` flags.
pub open spec fn level_name(level: u8) -> Seq<char> {
    if level == 0 {
        "WARN"@
    } else if level == 1 {
        "INFO"@
    } else if level == 2 {
        "DEBUG"@
    } else {
        "TRACE"@
    }
}

/// The log filter for a verbosity level; there is none above 3.
pub fn debug_level(level: u8) -> (r: &'static str)
    requires
        level <= 3,
    ensures
        r@ == level_name(level),
{
    match level {
        0 => "WARN",
        1 => "INFO",
        2 => "DEBUG",
        _ => "TRACE",
    }
}

} // verus!
