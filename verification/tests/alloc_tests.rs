//! End-to-end scenarios: the built procedure graph, presented through an
//! adapter implementing the register-allocation engine's capability
//! surface, is accepted by the engine and allocated.

use regalloc2::Function;
use vcode::{BasicInst, BlockId, InstId, Operand, PReg, RegClass, VCode, VReg};

fn to_class(c: RegClass) -> regalloc2::RegClass {
    match c {
        RegClass::Int => regalloc2::RegClass::Int,
        RegClass::Float => regalloc2::RegClass::Float,
    }
}

fn to_vreg(v: VReg) -> regalloc2::VReg {
    regalloc2::VReg::new(v.index, to_class(v.class))
}

fn to_preg(p: PReg) -> regalloc2::PReg {
    regalloc2::PReg::new(p.index, to_class(p.class))
}

fn to_operand(o: Operand) -> regalloc2::Operand {
    let constraint = match o.constraint {
        vcode::OperandConstraint::Any => regalloc2::OperandConstraint::Any,
        vcode::OperandConstraint::Reg => regalloc2::OperandConstraint::Reg,
        vcode::OperandConstraint::Stack => regalloc2::OperandConstraint::Stack,
        vcode::OperandConstraint::FixedReg(p) => regalloc2::OperandConstraint::FixedReg(to_preg(p)),
        vcode::OperandConstraint::Reuse(i) => regalloc2::OperandConstraint::Reuse(i),
    };
    let kind = match o.kind {
        vcode::OperandKind::Def => regalloc2::OperandKind::Def,
        vcode::OperandKind::Use => regalloc2::OperandKind::Use,
    };
    let pos = match o.pos {
        vcode::OperandPos::Early => regalloc2::OperandPos::Early,
        vcode::OperandPos::Late => regalloc2::OperandPos::Late,
    };
    regalloc2::Operand::new(to_vreg(o.vreg), constraint, kind, pos)
}

/// Presents a finished procedure graph through the engine's `Function`
/// trait, forwarding every query to the graph and converting identifiers.
struct Adapter {
    code: VCode<BasicInst>,
    succs: Vec<Vec<regalloc2::Block>>,
    preds: Vec<Vec<regalloc2::Block>>,
    params: Vec<Vec<regalloc2::VReg>>,
    operands: Vec<Vec<regalloc2::Operand>>,
    clobbers: Vec<Vec<regalloc2::PReg>>,
    branch_args: Vec<Vec<Vec<regalloc2::VReg>>>,
}

impl Adapter {
    fn new(code: VCode<BasicInst>) -> Adapter {
        let nb = code.num_blocks();
        let ni = code.num_insts();
        let mut succs = Vec::new();
        let mut preds = Vec::new();
        let mut params = Vec::new();
        let mut branch_args: Vec<Vec<Vec<regalloc2::VReg>>> = Vec::new();
        for b in 0..nb {
            let bid = BlockId(b);
            succs.push(
                code.block_succs(bid)
                    .iter()
                    .map(|s| regalloc2::Block::new(s.0))
                    .collect(),
            );
            preds.push(
                code.block_preds(bid)
                    .iter()
                    .map(|p| regalloc2::Block::new(p.0))
                    .collect(),
            );
            params.push(code.block_params(bid).iter().map(|v| to_vreg(*v)).collect());
            let range = code.block_insns(bid);
            let nsucc = code.block_succs(bid).len();
            let mut per_succ = Vec::new();
            if range.to.0 > range.from.0 {
                let last = InstId(range.to.0 - 1);
                if code.is_branch(last) {
                    for s in 0..nsucc {
                        let args = code.branch_blockparams(bid, last, s);
                        per_succ.push(args.into_iter().map(to_vreg).collect());
                    }
                }
            }
            while per_succ.len() < nsucc {
                per_succ.push(Vec::new());
            }
            branch_args.push(per_succ);
        }
        let mut operands = Vec::new();
        let mut clobbers = Vec::new();
        for i in 0..ni {
            let iid = InstId(i);
            operands.push(
                code.inst_operands(iid)
                    .iter()
                    .map(|o| to_operand(*o))
                    .collect(),
            );
            clobbers.push(code.inst_clobbers(iid).iter().map(|p| to_preg(*p)).collect());
        }
        Adapter {
            code,
            succs,
            preds,
            params,
            operands,
            clobbers,
            branch_args,
        }
    }
}

impl Function for Adapter {
    fn num_insts(&self) -> usize {
        self.code.num_insts()
    }

    fn num_blocks(&self) -> usize {
        self.code.num_blocks()
    }

    fn entry_block(&self) -> regalloc2::Block {
        regalloc2::Block::new(self.code.entry_block().0)
    }

    fn block_insns(&self, block: regalloc2::Block) -> regalloc2::InstRange {
        let r = self.code.block_insns(BlockId(block.index()));
        regalloc2::InstRange::forward(
            regalloc2::Inst::new(r.from.0),
            regalloc2::Inst::new(r.to.0),
        )
    }

    fn block_succs(&self, block: regalloc2::Block) -> &[regalloc2::Block] {
        &self.succs[block.index()]
    }

    fn block_preds(&self, block: regalloc2::Block) -> &[regalloc2::Block] {
        &self.preds[block.index()]
    }

    fn block_params(&self, block: regalloc2::Block) -> &[regalloc2::VReg] {
        &self.params[block.index()]
    }

    fn is_ret(&self, insn: regalloc2::Inst) -> bool {
        self.code.is_ret(InstId(insn.index()))
    }

    fn is_branch(&self, insn: regalloc2::Inst) -> bool {
        self.code.is_branch(InstId(insn.index()))
    }

    fn branch_blockparams(
        &self,
        block: regalloc2::Block,
        _insn: regalloc2::Inst,
        succ_idx: usize,
    ) -> &[regalloc2::VReg] {
        &self.branch_args[block.index()][succ_idx]
    }

    fn is_move(&self, insn: regalloc2::Inst) -> Option<(regalloc2::Operand, regalloc2::Operand)> {
        self.code
            .is_move(InstId(insn.index()))
            .map(|(src, dst)| (to_operand(src), to_operand(dst)))
    }

    fn inst_operands(&self, insn: regalloc2::Inst) -> &[regalloc2::Operand] {
        &self.operands[insn.index()]
    }

    fn inst_clobbers(&self, insn: regalloc2::Inst) -> &[regalloc2::PReg] {
        &self.clobbers[insn.index()]
    }

    fn num_vregs(&self) -> usize {
        self.code.num_vregs()
    }

    fn spillslot_size(&self, regclass: regalloc2::RegClass) -> usize {
        let class = match regclass {
            regalloc2::RegClass::Int => RegClass::Int,
            regalloc2::RegClass::Float => RegClass::Float,
        };
        self.code.spillslot_size(class)
    }
}

fn machine_env() -> regalloc2::MachineEnv {
    let p = |i: usize| regalloc2::PReg::new(i, regalloc2::RegClass::Int);
    let f = |i: usize| regalloc2::PReg::new(i, regalloc2::RegClass::Float);
    regalloc2::MachineEnv {
        preferred_regs_by_class: [vec![p(0), p(1), p(2)], vec![f(0), f(1)]],
        non_preferred_regs_by_class: [vec![p(3), p(4)], vec![f(2)]],
        scratch_by_class: [p(5), f(3)],
        fixed_stack_slots: vec![],
    }
}

#[test]
fn allocation_covers_block_parameter() {
    // block 0: define v0, branch to block 1 passing v0 for its parameter
    // v1; block 1: return v1. The engine accepts the graph and assigns a
    // location to the virtual register used by the return.
    let mut code: VCode<BasicInst> = VCode::default();
    let v0 = code.fresh_vreg(RegClass::Int);
    let v1 = code.fresh_vreg(RegClass::Int);
    let b0 = code.new_block(Vec::new());
    code.emit(BasicInst::op(vec![Operand::reg_def(v0)]));
    code.emit(BasicInst::branch(0, vec![Operand::reg_use(v0)]));
    code.finish_block();
    let b1 = code.new_block(vec![v1]);
    code.emit(BasicInst::ret(vec![Operand::reg_use(v1)]));
    code.finish_block();
    code.add_edge(b0, b1);
    assert!(code.check_branches_aligned());
    assert_eq!(code.num_insts(), 3);
    assert_eq!(code.num_blocks(), 2);
    assert_eq!(code.block_preds(BlockId(1)), &[BlockId(0)][..]);
    assert_eq!(code.block_succs(BlockId(0)), &[BlockId(1)][..]);

    let adapter = Adapter::new(code);
    let env = machine_env();
    let opts = regalloc2::RegallocOptions { verbose_log: false };
    let out = regalloc2::run(&adapter, &env, &opts).expect("allocation failed");
    let ret_allocs = out.inst_allocs(regalloc2::Inst::new(2));
    assert_eq!(ret_allocs.len(), 1);
    assert!(!ret_allocs[0].is_none());
}

#[test]
fn adapter_reports_call_clobbers() {
    // A call clobbering {R0, R1}: the adapter reports exactly that clobber
    // set for the call's identifier and classifies it as a call only.
    let r0 = PReg::new(0, RegClass::Int);
    let r1 = PReg::new(1, RegClass::Int);
    let mut code: VCode<BasicInst> = VCode::default();
    code.new_block(Vec::new());
    let call = code.emit(BasicInst::call(Vec::new(), vec![r0, r1]));
    code.emit(BasicInst::ret(Vec::new()));
    code.finish_block();
    assert_eq!(code.inst_clobbers(call), &[r0, r1][..]);

    let adapter = Adapter::new(code);
    let insn = regalloc2::Inst::new(call.0);
    assert_eq!(
        adapter.inst_clobbers(insn),
        &[to_preg(r0), to_preg(r1)][..]
    );
    assert!(!adapter.is_branch(insn));
    assert!(!adapter.is_ret(insn));
    assert_eq!(adapter.is_move(insn), None);

    let env = machine_env();
    let opts = regalloc2::RegallocOptions { verbose_log: false };
    let out = regalloc2::run(&adapter, &env, &opts).expect("allocation failed");
    assert_eq!(out.inst_allocs(insn).len(), 0);
}
