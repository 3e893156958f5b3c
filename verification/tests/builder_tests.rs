//! Builder behaviour of the procedure graph: fresh allocators, outgoing
//! sizing, block ranges, edges, branch alignment, and the query surface.

use vcode::{
    BasicInst, BasicInstKind, BlockId, Inst, InstId, Operand, OperandConstraint, OperandKind,
    OperandPos, PReg, RegClass, SpillId, VCode, VReg,
};

fn two_block_code() -> (VCode<BasicInst>, VReg, VReg) {
    // block 0: define v0, branch to block 1 passing v0 for its parameter v1.
    // block 1 (param v1): return v1.
    let mut code: VCode<BasicInst> = VCode::default();
    let v0 = code.fresh_vreg(RegClass::Int);
    let v1 = code.fresh_vreg(RegClass::Int);
    let b0 = code.new_block(Vec::new());
    assert_eq!(b0, BlockId(0));
    code.emit(BasicInst::op(vec![Operand::reg_def(v0)]));
    code.emit(BasicInst::branch(0, vec![Operand::reg_use(v0)]));
    code.finish_block();
    let b1 = code.new_block(vec![v1]);
    assert_eq!(b1, BlockId(1));
    code.emit(BasicInst::ret(vec![Operand::reg_use(v1)]));
    code.finish_block();
    code.add_edge(b0, b1);
    (code, v0, v1)
}

#[test]
fn fresh_vreg_monotonic_and_classed() {
    let mut code: VCode<BasicInst> = VCode::default();
    let a = code.fresh_vreg(RegClass::Int);
    let b = code.fresh_vreg(RegClass::Float);
    let c = code.fresh_vreg(RegClass::Int);
    assert_eq!(a.vreg(), 0);
    assert_eq!(b.vreg(), 1);
    assert_eq!(c.vreg(), 2);
    assert_eq!(a.class, RegClass::Int);
    assert_eq!(b.class, RegClass::Float);
    assert_ne!(a, c);
    assert_eq!(code.num_vregs(), 3);
}

#[test]
fn fresh_spill_skips_sentinels() {
    let mut code: VCode<BasicInst> = VCode::default();
    let s0 = code.fresh_spill();
    let s1 = code.fresh_spill();
    assert_eq!(s0, SpillId(2));
    assert_eq!(s1, SpillId(3));
    assert_ne!(s0, SpillId::incoming());
    assert_ne!(s0, SpillId::outgoing());
    assert_eq!(SpillId::incoming(), SpillId(0));
    assert_eq!(SpillId::outgoing(), SpillId(1));
}

#[test]
fn outgoing_size_tracks_maximum() {
    let mut code: VCode<BasicInst> = VCode::default();
    assert_eq!(code.outgoing_spill_size(), None);
    code.mk_outgoing_spill(16);
    assert_eq!(code.outgoing_spill_size(), Some(16));
    code.mk_outgoing_spill(8);
    assert_eq!(code.outgoing_spill_size(), Some(16));
    code.mk_outgoing_spill(24);
    code.mk_outgoing_spill(24);
    code.mk_outgoing_spill(0);
    assert_eq!(code.outgoing_spill_size(), Some(24));
}

#[test]
fn outgoing_size_zero_request_is_recorded() {
    let mut code: VCode<BasicInst> = VCode::default();
    code.mk_outgoing_spill(0);
    assert_eq!(code.outgoing_spill_size(), Some(0));
}

#[test]
fn block_ranges_partition_instructions() {
    let (code, _, _) = two_block_code();
    assert_eq!(code.num_insts(), 3);
    assert_eq!(code.num_blocks(), 2);
    assert_eq!(code.entry_block(), BlockId(0));
    let r0 = code.block_insns(BlockId(0));
    let r1 = code.block_insns(BlockId(1));
    assert_eq!((r0.from, r0.to), (InstId(0), InstId(2)));
    assert_eq!((r1.from, r1.to), (InstId(2), InstId(3)));
}

#[test]
fn edges_are_symmetric() {
    let (code, _, _) = two_block_code();
    assert_eq!(code.block_succs(BlockId(0)), &[BlockId(1)][..]);
    assert_eq!(code.block_preds(BlockId(1)), &[BlockId(0)][..]);
    assert_eq!(code.block_succs(BlockId(1)), &[] as &[BlockId]);
    assert_eq!(code.block_preds(BlockId(0)), &[] as &[BlockId]);
}

#[test]
fn duplicate_edges_are_kept() {
    let mut code: VCode<BasicInst> = VCode::default();
    let b0 = code.new_block(Vec::new());
    code.emit(BasicInst::branch(0, Vec::new()));
    code.finish_block();
    let b1 = code.new_block(Vec::new());
    code.emit(BasicInst::ret(Vec::new()));
    code.finish_block();
    code.add_edge(b0, b1);
    code.add_edge(b0, b1);
    assert_eq!(code.block_succs(b0), &[b1, b1][..]);
    assert_eq!(code.block_preds(b1), &[b0, b0][..]);
}

#[test]
fn branch_alignment_checker_accepts_aligned() {
    let (code, _, _) = two_block_code();
    assert!(code.check_branches_aligned());
}

#[test]
fn branch_alignment_checker_rejects_missing_args() {
    // Same shape, but the branch passes no argument although the successor
    // has one parameter.
    let mut code: VCode<BasicInst> = VCode::default();
    let v1 = code.fresh_vreg(RegClass::Int);
    let b0 = code.new_block(Vec::new());
    code.emit(BasicInst::branch(0, Vec::new()));
    code.finish_block();
    let b1 = code.new_block(vec![v1]);
    code.emit(BasicInst::ret(vec![Operand::reg_use(v1)]));
    code.finish_block();
    code.add_edge(b0, b1);
    assert!(!code.check_branches_aligned());
}

#[test]
fn branch_blockparams_extracts_successor_arguments() {
    let (code, v0, _) = two_block_code();
    let args = code.branch_blockparams(BlockId(0), InstId(1), 0);
    assert_eq!(args, vec![v0]);
}

#[test]
fn branch_blockparams_multiple_successors_in_order() {
    // block 0 branches to block 1 (two params) and block 2 (one param);
    // the branch carries the three arguments in successor order.
    let mut code: VCode<BasicInst> = VCode::default();
    let a = code.fresh_vreg(RegClass::Int);
    let b = code.fresh_vreg(RegClass::Int);
    let c = code.fresh_vreg(RegClass::Int);
    let p1a = code.fresh_vreg(RegClass::Int);
    let p1b = code.fresh_vreg(RegClass::Int);
    let p2 = code.fresh_vreg(RegClass::Int);
    let b0 = code.new_block(Vec::new());
    code.emit(BasicInst::op(vec![
        Operand::reg_def(a),
        Operand::reg_def(b),
        Operand::reg_def(c),
    ]));
    code.emit(BasicInst::branch(
        0,
        vec![Operand::reg_use(a), Operand::reg_use(b), Operand::reg_use(c)],
    ));
    code.finish_block();
    let b1 = code.new_block(vec![p1a, p1b]);
    code.emit(BasicInst::ret(Vec::new()));
    code.finish_block();
    let b2 = code.new_block(vec![p2]);
    code.emit(BasicInst::ret(Vec::new()));
    code.finish_block();
    code.add_edge(b0, b1);
    code.add_edge(b0, b2);
    assert!(code.check_branches_aligned());
    assert_eq!(code.branch_blockparams(b0, InstId(1), 0), vec![a, b]);
    assert_eq!(code.branch_blockparams(b0, InstId(1), 1), vec![c]);
}

#[test]
fn query_surface_reports_payload_facts() {
    let (code, v0, v1) = two_block_code();
    assert!(!code.is_branch(InstId(0)));
    assert!(code.is_branch(InstId(1)));
    assert!(!code.is_ret(InstId(1)));
    assert!(code.is_ret(InstId(2)));
    assert_eq!(code.branch_blockparam_arg_offset(BlockId(0), InstId(1)), 0);
    assert_eq!(code.is_move(InstId(0)), None);
    assert_eq!(code.inst_operands(InstId(0)), &[Operand::reg_def(v0)][..]);
    assert_eq!(code.inst_operands(InstId(2)), &[Operand::reg_use(v1)][..]);
    assert_eq!(code.inst_clobbers(InstId(0)), &[] as &[PReg]);
    assert_eq!(code.spillslot_size(RegClass::Int), 1);
    assert_eq!(code.spillslot_size(RegClass::Float), 1);
}

#[test]
fn move_instruction_reports_operand_pair() {
    let mut code: VCode<BasicInst> = VCode::default();
    let x = code.fresh_vreg(RegClass::Int);
    let y = code.fresh_vreg(RegClass::Int);
    let src = Operand::reg_use(x);
    let dst = Operand::reg_def(y);
    code.new_block(Vec::new());
    code.emit(BasicInst::mov(src, dst));
    code.emit(BasicInst::ret(Vec::new()));
    code.finish_block();
    assert_eq!(code.is_move(InstId(0)), Some((src, dst)));
    assert_eq!(code.is_move(InstId(1)), None);
}

#[test]
fn call_reports_exact_clobbers() {
    // A call clobbering {R0, R1} is classified as a call and reports
    // exactly that clobber set.
    let r0 = PReg::new(0, RegClass::Int);
    let r1 = PReg::new(1, RegClass::Int);
    let mut code: VCode<BasicInst> = VCode::default();
    code.new_block(Vec::new());
    let call = code.emit(BasicInst::call(Vec::new(), vec![r0, r1]));
    code.emit(BasicInst::ret(Vec::new()));
    code.finish_block();
    assert_eq!(code.inst_clobbers(call), &[r0, r1][..]);
    let stored = code.inst_operands(call);
    assert!(stored.is_empty());
    assert!(!code.is_branch(call));
    assert!(!code.is_ret(call));
    assert_eq!(code.is_move(call), None);
}

#[test]
fn operand_constructors_fix_all_fields() {
    let v = VReg::new(4, RegClass::Float);
    let u = Operand::reg_use(v);
    assert_eq!(u.vreg, v);
    assert_eq!(u.constraint, OperandConstraint::Reg);
    assert_eq!(u.kind, OperandKind::Use);
    assert_eq!(u.pos, OperandPos::Early);
    let d = Operand::reg_def(v);
    assert_eq!(d.kind, OperandKind::Def);
    assert_eq!(d.pos, OperandPos::Late);
    let f = Operand::new(
        v,
        OperandConstraint::FixedReg(PReg::new(3, RegClass::Int)),
        OperandKind::Def,
        OperandPos::Late,
    );
    assert_eq!(
        f.constraint,
        OperandConstraint::FixedReg(PReg::new(3, RegClass::Int))
    );
}

#[test]
fn basic_inst_kinds_classify() {
    let i = BasicInst::op(Vec::new());
    assert_eq!(i.kind, BasicInstKind::Op);
    assert!(!i.is_call());
    let c = BasicInst::call(Vec::new(), Vec::new());
    assert_eq!(c.kind, BasicInstKind::Call);
    assert!(c.is_call());
    assert!(!c.is_ret());
    assert!(!c.is_branch());
    let r = BasicInst::ret(Vec::new());
    assert_eq!(r.kind, BasicInstKind::Ret);
    assert!(r.is_ret());
    let b = BasicInst::branch(2, Vec::new());
    assert_eq!(b.kind, BasicInstKind::Branch { arg_offset: 2 });
    assert!(b.is_branch());
    assert_eq!(b.branch_blockparam_arg_offset(), 2);
}
