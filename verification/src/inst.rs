//! A minimal, target-neutral instruction payload.
//!
//! Real backends supply their own machine-specific payload types; this one
//! carries just what the capability interface asks about — a kind tag, an
//! operand list and a clobber list — and serves as the reference
//! implementation of that interface.

use crate::graph::Inst;
use crate::idx::{Operand, PReg};
use vstd::prelude::*;

verus! {

/// What role a [`BasicInst`] plays in its block.
#[derive(Clone, Copy, PartialEq, Eq, Structural, Debug)]
pub enum BasicInstKind {
    /// An ordinary computation.
    Op,
    /// A call into another procedure.
    Call,
    /// A return to the caller.
    Ret,
    /// The end-of-block branch; its operands from `arg_offset` on are the
    /// outgoing blockparam arguments for the block's successors, in order.
    Branch {
        /// The operand index at which the blockparam arguments begin.
        arg_offset: usize,
    },
    /// A register-to-register move; the operands are `[source, destination]`.
    Move,
}

/// A generic instruction: a kind tag plus its operand and clobber lists.
#[derive(Debug)]
pub struct BasicInst {
    /// The role of the instruction.
    pub kind: BasicInstKind,
    /// The instruction's use and definition sites.
    pub operands: Vec<Operand>,
    /// The physical registers the instruction destroys.
    pub clobbers: Vec<PReg>,
}

impl BasicInst {
    /// An ordinary computation over the given operands.
    pub fn op(operands: Vec<Operand>) -> (r: BasicInst)
        ensures
            r.kind == BasicInstKind::Op,
            r.operands@ == operands@,
            r.clobbers@ == Seq::<PReg>::empty(),
    {
        BasicInst { kind: BasicInstKind::Op, operands, clobbers: Vec::new() }
    }

    /// A call with the given operands and clobber set.
    pub fn call(operands: Vec<Operand>, clobbers: Vec<PReg>) -> (r: BasicInst)
        ensures
            r.kind == BasicInstKind::Call,
            r.operands@ == operands@,
            r.clobbers@ == clobbers@,
    {
        BasicInst { kind: BasicInstKind::Call, operands, clobbers }
    }

    /// A return with the given operands (the values handed back).
    pub fn ret(operands: Vec<Operand>) -> (r: BasicInst)
        ensures
            r.kind == BasicInstKind::Ret,
            r.operands@ == operands@,
            r.clobbers@ == Seq::<PReg>::empty(),
    {
        BasicInst { kind: BasicInstKind::Ret, operands, clobbers: Vec::new() }
    }

    /// An end-of-block branch whose blockparam arguments start at
    /// `arg_offset` within `operands`.
    pub fn branch(arg_offset: usize, operands: Vec<Operand>) -> (r: BasicInst)
        ensures
            r.kind == (BasicInstKind::Branch { arg_offset }),
            r.operands@ == operands@,
            r.clobbers@ == Seq::<PReg>::empty(),
    {
        BasicInst { kind: BasicInstKind::Branch { arg_offset }, operands, clobbers: Vec::new() }
    }

    /// A register-to-register move from `src` to `dst`.
    pub fn mov(src: Operand, dst: Operand) -> (r: BasicInst)
        ensures
            r.kind == BasicInstKind::Move,
            r.operands@ == seq![src, dst],
            r.clobbers@ == Seq::<PReg>::empty(),
    {
        let mut operands: Vec<Operand> = Vec::new();
        operands.push(src);
        operands.push(dst);
        proof {
            assert(operands@ =~= seq![src, dst]);
        }
        BasicInst { kind: BasicInstKind::Move, operands, clobbers: Vec::new() }
    }
}

impl Inst for BasicInst {
    open spec fn spec_is_call(&self) -> bool {
        self.kind is Call
    }

    open spec fn spec_is_ret(&self) -> bool {
        self.kind is Ret
    }

    open spec fn spec_is_branch(&self) -> bool {
        self.kind is Branch
    }

    open spec fn spec_blockparam_arg_offset(&self) -> usize {
        match self.kind {
            BasicInstKind::Branch { arg_offset } => arg_offset,
            _ => 0,
        }
    }

    open spec fn spec_is_move(&self) -> Option<(Operand, Operand)> {
        if self.kind is Move && self.operands@.len() == 2 {
            Some((self.operands@[0], self.operands@[1]))
        } else {
            None
        }
    }

    open spec fn spec_operands(&self) -> Seq<Operand> {
        self.operands@
    }

    open spec fn spec_clobbers(&self) -> Seq<PReg> {
        self.clobbers@
    }

    fn is_call(&self) -> (r: bool) {
        match self.kind {
            BasicInstKind::Call => true,
            _ => false,
        }
    }

    fn is_ret(&self) -> (r: bool) {
        match self.kind {
            BasicInstKind::Ret => true,
            _ => false,
        }
    }

    fn is_branch(&self) -> (r: bool) {
        match self.kind {
            BasicInstKind::Branch { .. } => true,
            _ => false,
        }
    }

    fn branch_blockparam_arg_offset(&self) -> (r: usize) {
        match self.kind {
            BasicInstKind::Branch { arg_offset } => arg_offset,
            _ => 0,
        }
    }

    fn is_move(&self) -> (r: Option<(Operand, Operand)>) {
        match self.kind {
            BasicInstKind::Move => {
                if self.operands.len() == 2 {
                    Some((self.operands[0], self.operands[1]))
                } else {
                    None
                }
            },
            _ => None,
        }
    }

    fn collect_operands(&self, v: &mut Vec<Operand>) {
        let n = self.operands.len();
        let mut idx: usize = 0;
        while idx < n
            invariant
                n == self.operands@.len(),
                idx <= n,
                v@ == old(v)@ + self.operands@.subrange(0, idx as int),
            decreases n - idx,
        {
            v.push(self.operands[idx]);
            proof {
                assert(v@ =~= old(v)@ + self.operands@.subrange(0, idx + 1));
            }
            idx = idx + 1;
        }
        proof {
            assert(v@ =~= old(v)@ + self.spec_operands());
        }
    }

    fn clobbers(&self) -> (r: &[PReg]) {
        self.clobbers.as_slice()
    }
}

} // verus!
