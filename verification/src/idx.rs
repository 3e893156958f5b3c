//! Opaque dense identifiers for blocks, instructions and stack slots, and
//! the value types describing virtual registers, physical registers and
//! instruction operands.
//!
//! Every collection of the procedure graph is indexed by one of these
//! identifiers; each is a newtype over a raw array index with an explicit
//! conversion contract, so the graph holds no internal references.

use vstd::prelude::*;

verus! {

/// Identifier of a basic block: a dense, zero-based index.
#[derive(Clone, Copy, PartialEq, Eq, Structural, Debug)]
pub struct BlockId(pub usize);

impl BlockId {
    /// The raw array index of this block.
    pub fn into_usize(self) -> (n: usize)
        ensures
            n == self.0,
    {
        self.0
    }

    /// The block with raw index `n`.
    pub fn from_usize(n: usize) -> (b: BlockId)
        ensures
            b.0 == n,
    {
        BlockId(n)
    }
}

/// Identifier of an instruction: a dense, zero-based index.
#[derive(Clone, Copy, PartialEq, Eq, Structural, Debug)]
pub struct InstId(pub usize);

impl InstId {
    /// The raw array index of this instruction.
    pub fn into_usize(self) -> (n: usize)
        ensures
            n == self.0,
    {
        self.0
    }

    /// The instruction with raw index `n`.
    pub fn from_usize(n: usize) -> (i: InstId)
        ensures
            i.0 == n,
    {
        InstId(n)
    }
}

/// Identifier of a spill slot, a region of the procedure's stack frame.
///
/// Slots `0` and `1` are reserved sentinels: slot `0` is the caller's
/// incoming-argument area and slot `1` is this procedure's outgoing-argument
/// area for the calls it makes. All further slots are allocated on demand by
/// the builder.
#[derive(Clone, Copy, PartialEq, Eq, Structural, Debug)]
pub struct SpillId(pub usize);

impl SpillId {
    /// The reserved slot holding the incoming arguments from the caller.
    pub fn incoming() -> (s: SpillId)
        ensures
            s.0 == 0,
    {
        SpillId(0)
    }

    /// The reserved slot holding the outgoing arguments, to functions called
    /// by this one.
    pub fn outgoing() -> (s: SpillId)
        ensures
            s.0 == 1,
    {
        SpillId(1)
    }

    /// The raw index of this slot.
    pub fn into_usize(self) -> (n: usize)
        ensures
            n == self.0,
    {
        self.0
    }

    /// The slot with raw index `n`.
    pub fn from_usize(n: usize) -> (s: SpillId)
        ensures
            s.0 == n,
    {
        SpillId(n)
    }
}

/// The bank of registers a value lives in.
#[derive(Clone, Copy, PartialEq, Eq, Structural, Debug)]
pub enum RegClass {
    /// General-purpose integer registers.
    Int,
    /// Floating-point registers.
    Float,
}

/// A virtual register: a name for a value before register allocation has
/// assigned it a physical register or stack slot. Uniquely allocated by the
/// builder and never reused within a procedure.
#[derive(Clone, Copy, PartialEq, Eq, Structural, Debug)]
pub struct VReg {
    /// The dense index of this virtual register.
    pub index: usize,
    /// The register bank this value needs.
    pub class: RegClass,
}

impl VReg {
    /// Pack an index and a class into a virtual register.
    pub fn new(index: usize, class: RegClass) -> (v: VReg)
        ensures
            v == (VReg { index, class }),
    {
        VReg { index, class }
    }

    /// The dense index of this virtual register.
    pub fn vreg(self) -> (n: usize)
        ensures
            n == self.index,
    {
        self.index
    }
}

/// A concrete machine register.
#[derive(Clone, Copy, PartialEq, Eq, Structural, Debug)]
pub struct PReg {
    /// The hardware encoding of the register within its bank.
    pub index: usize,
    /// The register bank.
    pub class: RegClass,
}

impl PReg {
    /// Pack a hardware encoding and a class into a physical register.
    pub fn new(index: usize, class: RegClass) -> (p: PReg)
        ensures
            p == (PReg { index, class }),
    {
        PReg { index, class }
    }
}

/// The constraint a use or definition site puts on where its value lives.
#[derive(Clone, Copy, PartialEq, Eq, Structural, Debug)]
pub enum OperandConstraint {
    /// Any register or stack slot of the right class.
    Any,
    /// Any register of the right class.
    Reg,
    /// Any stack slot.
    Stack,
    /// This specific physical register.
    FixedReg(PReg),
    /// The same location as the operand at the given index.
    Reuse(usize),
}

/// Whether an operand reads or writes its value.
#[derive(Clone, Copy, PartialEq, Eq, Structural, Debug)]
pub enum OperandKind {
    /// The instruction defines this value.
    Def,
    /// The instruction uses this value.
    Use,
}

/// The point within the instruction at which the operand's location is live.
#[derive(Clone, Copy, PartialEq, Eq, Structural, Debug)]
pub enum OperandPos {
    /// Before the instruction executes.
    Early,
    /// After the instruction executes.
    Late,
}

/// One use or definition site within an instruction: which virtual register
/// it concerns and what constraint applies. Owned by the instruction's entry
/// in the operand arena, never shared.
#[derive(Clone, Copy, PartialEq, Eq, Structural, Debug)]
pub struct Operand {
    /// The virtual register this site concerns.
    pub vreg: VReg,
    /// Where the allocator may place the value.
    pub constraint: OperandConstraint,
    /// Whether the site reads or writes the value.
    pub kind: OperandKind,
    /// When within the instruction the location is live.
    pub pos: OperandPos,
}

impl Operand {
    /// An operand with all four parts given.
    pub fn new(vreg: VReg, constraint: OperandConstraint, kind: OperandKind, pos: OperandPos) -> (o:
        Operand)
        ensures
            o == (Operand { vreg, constraint, kind, pos }),
    {
        Operand { vreg, constraint, kind, pos }
    }

    /// A use of `vreg` in any register, read before the instruction executes.
    pub fn reg_use(vreg: VReg) -> (o: Operand)
        ensures
            o == (Operand {
                vreg,
                constraint: OperandConstraint::Reg,
                kind: OperandKind::Use,
                pos: OperandPos::Early,
            }),
    {
        Operand {
            vreg,
            constraint: OperandConstraint::Reg,
            kind: OperandKind::Use,
            pos: OperandPos::Early,
        }
    }

    /// A definition of `vreg` in any register, written after the instruction
    /// executes.
    pub fn reg_def(vreg: VReg) -> (o: Operand)
        ensures
            o == (Operand {
                vreg,
                constraint: OperandConstraint::Reg,
                kind: OperandKind::Def,
                pos: OperandPos::Late,
            }),
    {
        Operand {
            vreg,
            constraint: OperandConstraint::Reg,
            kind: OperandKind::Def,
            pos: OperandPos::Late,
        }
    }
}

} // verus!
