//! When a command applies, and who wins when several do.
//!
//! A command's gate is a condition of the host's, evaluated on demand. What
//! the library decides is what the evaluation's outcome means: a command with
//! no gate is unconditional, and a gate that cannot be evaluated must not
//! silently behave as "allow".

use vstd::prelude::*;

verus! {

/// Tie-break among commands whose conditions all pass. Higher wins; absent
/// means zero.
#[derive(Clone, Copy, Debug, PartialEq, Eq, PartialOrd, Ord, Hash, Structural)]
pub struct Priority(pub i32);

impl Default for Priority {
    fn default() -> (r: Self)
        ensures
            r.0 == 0,
    {
        Priority(0)
    }
}

/// Whether a command's gate lets it through.
///
/// `has_gate` is whether the command carries one; `initialized` whether the
/// gate's parameters were resolved before this evaluation; `outcome` what
/// running it returned, `None` where it failed to run. No gate means yes; a
/// gate that was never initialized or that failed means no.
pub fn gate_verdict(has_gate: bool, initialized: bool, outcome: Option<bool>) -> (r: bool)
    ensures
        r == (!has_gate || (initialized && outcome == Some(true))),
{
    if !has_gate {
        return true;
    }
    if !initialized {
        return false;
    }
    match outcome {
        Some(passed) => passed,
        None => false,
    }
}

} // verus!
