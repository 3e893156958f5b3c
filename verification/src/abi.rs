//! The calling-convention model: value types describing where a single
//! argument or return value lives, and the aggregate convention of a whole
//! procedure.
//!
//! This is pure data, produced by an external calling-convention classifier.
//! The procedure graph consumes it only to size the outgoing-argument stack
//! region and to attach clobber sets to call instructions; the policy of
//! which values go where is never computed here.

use crate::idx::PReg;
use vstd::prelude::*;

verus! {

/// The size in bytes of a value held in a register.
#[derive(Clone, Copy, PartialEq, Eq, Structural, Debug)]
pub enum Size {
    /// One byte.
    S8,
    /// Two bytes.
    S16,
    /// Four bytes.
    S32,
    /// Eight bytes.
    S64,
}

/// The calling convention of a single argument or return value.
#[derive(Clone, Copy, PartialEq, Eq, Structural, Debug)]
pub enum ArgAbi {
    /// The value is erased and not passed at runtime.
    Erased,
    /// The value is passed in the given physical register.
    Reg(PReg, Size),
    /// The value is passed in a memory location.
    Mem {
        /// The offset in the outgoing-argument slot at which the data lives.
        off: u32,
        /// The size of the data in bytes.
        sz: u32,
    },
    /// A pointer to a value of the given size is passed in a physical
    /// register. For return values this is an additional argument *to* the
    /// procedure: the caller passes a pointer to the return slot.
    Boxed {
        /// The register carrying the pointer.
        reg: PReg,
        /// The size of the pointed-to data in bytes.
        sz: u32,
    },
    /// A pointer to the value is passed in memory, for the case that no
    /// physical register is left. The pointer itself lives at
    /// `off..off + 8` in the outgoing-argument slot. For return values this
    /// is an additional argument *to* the procedure, as with `Boxed`.
    BoxedMem {
        /// The offset in the outgoing-argument slot at which the pointer
        /// lives.
        off: u32,
        /// The size of the data starting at the pointed-to location.
        sz: u32,
    },
}

/// The representation of a whole procedure's calling convention.
#[derive(Debug)]
pub struct ProcAbi {
    /// The arguments of the procedure, in order.
    pub args: Vec<ArgAbi>,
    /// The return values of the procedure, in order. `None` means the
    /// procedure never returns control to its caller.
    pub rets: Option<Vec<ArgAbi>>,
    /// The total size in bytes of all the outgoing arguments.
    pub args_space: u32,
    /// The physical registers that a call under this convention destroys.
    pub clobbers: Vec<PReg>,
}

} // verus!
