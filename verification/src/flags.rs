//! Session-wide switches of the compiler driver.

use vstd::prelude::*;

verus! {

/// The toggles a driver holds for one whole run.
#[derive(Clone, Copy, PartialEq, Eq, Structural, Debug)]
pub struct SessionFlags {
    /// Whether proofs are checked during compilation. On unless the driver
    /// was asked to skip proof checking.
    pub check_proofs: bool,
}

impl Default for SessionFlags {
    /// The default session checks proofs.
    fn default() -> (s: Self)
        ensures
            s.check_proofs,
    {
        SessionFlags { check_proofs: true }
    }
}

/// Whether proof checking is enabled in the given session.
pub fn get_check_proofs(flags: &SessionFlags) -> (r: bool)
    ensures
        r == flags.check_proofs,
{
    flags.check_proofs
}

} // verus!
