//! The procedure graph: a dense store of instructions partitioned into
//! basic blocks, predecessor/successor adjacency, per-block parameter lists,
//! per-instruction operand lists, and counters for virtual registers and
//! stack slots.
//!
//! The graph is built incrementally by one builder pass — open a block, emit
//! its instructions, close it, repeating, with edges added at any point
//! between existing blocks — and then handed, read-only, to the register
//! allocator. Storage is append-only: the builder never deletes or reorders.

use crate::chunks::ChunkVec;
use crate::idx::{BlockId, InstId, Operand, PReg, RegClass, SpillId, VReg};
use vstd::prelude::*;

verus! {

/// The capability interface an instruction payload must satisfy.
///
/// The graph does not interpret instruction contents: instruction selection
/// supplies an opaque payload, and the graph asks it only what the register
/// allocator needs to know — whether it is a call, a return, the
/// end-of-block branch or a register-to-register move, what its operands
/// are, and which physical registers it destroys.
///
/// Each exec method reports exactly the corresponding spec-level view, so
/// the graph's contracts can speak about stored payloads.
pub trait Inst: Sized {
    /// Whether this instruction is a call, as a spec-level value.
    spec fn spec_is_call(&self) -> bool;

    /// Whether this instruction is a return, as a spec-level value.
    spec fn spec_is_ret(&self) -> bool;

    /// Whether this instruction is the end-of-block branch, as a spec-level
    /// value.
    spec fn spec_is_branch(&self) -> bool;

    /// The operand index at which outgoing blockparam arguments begin, as a
    /// spec-level value.
    spec fn spec_blockparam_arg_offset(&self) -> usize;

    /// The `(source, destination)` operand pair if this instruction is a
    /// register-to-register move, as a spec-level value.
    spec fn spec_is_move(&self) -> Option<(Operand, Operand)>;

    /// The operand list of this instruction, as a spec-level value.
    spec fn spec_operands(&self) -> Seq<Operand>;

    /// The clobber list of this instruction, as a spec-level value.
    spec fn spec_clobbers(&self) -> Seq<PReg>;

    /// Whether the instruction is a call. Used only for splitting
    /// heuristics.
    fn is_call(&self) -> (r: bool)
        ensures
            r == self.spec_is_call(),
    ;

    /// Whether the instruction is a return.
    fn is_ret(&self) -> (r: bool)
        ensures
            r == self.spec_is_ret(),
    ;

    /// Whether the instruction is the end-of-block branch. If so, its
    /// operands starting at the index given by
    /// [`branch_blockparam_arg_offset`](Self::branch_blockparam_arg_offset)
    /// must be the blockparam arguments for each of its block's successors,
    /// in successor order.
    fn is_branch(&self) -> (r: bool)
        ensures
            r == self.spec_is_branch(),
    ;

    /// The operand index at which outgoing blockparam arguments begin.
    fn branch_blockparam_arg_offset(&self) -> (r: usize)
        ensures
            r == self.spec_blockparam_arg_offset(),
    ;

    /// If the instruction is a register-to-register move, its
    /// `(source, destination)` operand pair.
    fn is_move(&self) -> (r: Option<(Operand, Operand)>)
        ensures
            r == self.spec_is_move(),
    ;

    /// Append the instruction's operands to `v`.
    fn collect_operands(&self, v: &mut Vec<Operand>)
        ensures
            final(v)@ == old(v)@ + self.spec_operands(),
    ;

    /// The physical registers the instruction destroys.
    fn clobbers(&self) -> (r: &[PReg])
        ensures
            r@ == self.spec_clobbers(),
    ;
}

/// A low-level representation of one procedure, after instruction selection
/// and before register allocation.
pub struct VCode<I> {
    insts: Vec<I>,
    blocks: Vec<(InstId, InstId)>,
    block_preds: Vec<Vec<BlockId>>,
    block_succs: Vec<Vec<BlockId>>,
    block_params: ChunkVec<VReg>,
    operands: ChunkVec<Operand>,
    num_vregs: usize,
    num_spills: usize,
    outgoing_spill_size: Option<u32>,
    open: Ghost<bool>,
}

impl<I> VCode<I> {
    /// The stored instruction payloads, in emission order.
    pub closed spec fn spec_insts(self) -> Seq<I> {
        self.insts@
    }

    /// The instruction range `[start, end)` of each block.
    pub closed spec fn spec_blocks(self) -> Seq<(InstId, InstId)> {
        self.blocks@
    }

    /// The predecessor list of each block.
    pub closed spec fn spec_preds(self) -> Seq<Seq<BlockId>> {
        self.block_preds@.map_values(|v: Vec<BlockId>| v@)
    }

    /// The successor list of each block.
    pub closed spec fn spec_succs(self) -> Seq<Seq<BlockId>> {
        self.block_succs@.map_values(|v: Vec<BlockId>| v@)
    }

    /// The parameter list of each block.
    pub closed spec fn spec_params(self) -> Seq<Seq<VReg>> {
        self.block_params@
    }

    /// The operand list of each instruction.
    pub closed spec fn spec_operands(self) -> Seq<Seq<Operand>> {
        self.operands@
    }

    /// How many virtual registers have been created.
    pub closed spec fn spec_num_vregs(self) -> int {
        self.num_vregs as int
    }

    /// How many spill slots exist, the two reserved sentinels included.
    pub closed spec fn spec_num_spills(self) -> int {
        self.num_spills as int
    }

    /// The maximum outgoing-argument size reserved so far, or `None` if no
    /// call site has reserved any.
    pub closed spec fn spec_outgoing(self) -> Option<u32> {
        self.outgoing_spill_size
    }

    /// Whether a block is currently open, that is, started and not yet
    /// finished.
    pub closed spec fn is_open(self) -> bool {
        self.open@
    }

    /// Elements stored in the block-parameter arena, over all blocks.
    pub closed spec fn params_total(self) -> int {
        self.block_params.total_len()
    }

    /// Elements stored in the operand arena, over all instructions.
    pub closed spec fn operands_total(self) -> int {
        self.operands.total_len()
    }

    /// The first instruction index of block `b`.
    pub open spec fn block_start(self, b: int) -> int {
        self.spec_blocks()[b].0.0 as int
    }

    /// The one-past-last instruction index of block `b`.
    pub open spec fn block_end(self, b: int) -> int {
        self.spec_blocks()[b].1.0 as int
    }

    /// Block ranges sit back to back: each block starts where its
    /// predecessor in numbering order ends, the first at instruction `0`,
    /// and no range runs backwards.
    pub open spec fn ranges_chained(self) -> bool {
        forall|i: int|
            0 <= i < self.spec_blocks().len() ==> {
                &&& #[trigger] self.block_start(i) == (if i == 0 {
                    0int
                } else {
                    self.block_end(i - 1)
                })
                &&& self.block_start(i) <= self.block_end(i)
            }
    }

    /// With no block open, the chained ranges exactly exhaust the
    /// instruction store.
    pub open spec fn ranges_complete(self) -> bool {
        &&& self.spec_blocks().len() == 0 ==> self.spec_insts().len() == 0
        &&& self.spec_blocks().len() > 0 ==> self.block_end(self.spec_blocks().len() - 1)
            == self.spec_insts().len()
    }

    /// With a block open, the open block is the last one: its end is still
    /// the placeholder set when it was started, and every instruction
    /// emitted since then lies at or beyond its start.
    pub open spec fn open_block_pending(self) -> bool {
        &&& self.spec_blocks().len() > 0
        &&& self.block_end(self.spec_blocks().len() - 1) == self.block_start(
            self.spec_blocks().len() - 1,
        )
        &&& self.block_start(self.spec_blocks().len() - 1) <= self.spec_insts().len()
    }

    /// Every block identifier stored in an adjacency list names an existing
    /// block.
    pub open spec fn edges_in_bounds(self) -> bool {
        &&& forall|b: int, j: int|
            0 <= b < self.spec_succs().len() && 0 <= j < self.spec_succs()[b].len()
                ==> (#[trigger] self.spec_succs()[b][j]).0 < self.spec_blocks().len()
        &&& forall|b: int, j: int|
            0 <= b < self.spec_preds().len() && 0 <= j < self.spec_preds()[b].len()
                ==> (#[trigger] self.spec_preds()[b][j]).0 < self.spec_blocks().len()
    }

    /// The CFG edge relation is symmetric: `b` is a successor of `p` exactly
    /// when `p` is a predecessor of `b`.
    pub open spec fn edges_symmetric(self) -> bool {
        forall|p: int, b: int|
            0 <= p < self.spec_blocks().len() && 0 <= b < self.spec_blocks().len() ==> (
            #[trigger] self.spec_succs()[p].contains(BlockId(b as usize)) <==> #[trigger] self.spec_preds()[b].contains(
                BlockId(p as usize),
            ))
    }

    /// Well-formedness of the whole graph. Established by [`VCode::default`]
    /// and preserved by every builder operation.
    pub closed spec fn wf(self) -> bool {
        &&& self.blocks@.len() == self.block_preds@.len()
        &&& self.blocks@.len() == self.block_succs@.len()
        &&& self.blocks@.len() == self.block_params@.len()
        &&& self.operands@.len() == self.insts@.len()
        &&& self.block_params.wf()
        &&& self.operands.wf()
        &&& self.num_spills >= 2
        &&& self.ranges_chained()
        &&& if self.is_open() {
            self.open_block_pending()
        } else {
            self.ranges_complete()
        }
        &&& self.edges_in_bounds()
        &&& self.edges_symmetric()
    }

    /// Changing only counters or the outgoing-size bookkeeping cannot
    /// disturb well-formedness: it depends on the stored instructions,
    /// blocks, edges and arenas alone, plus the two reserved spill slots.
    proof fn lemma_wf_same_storage(a: VCode<I>, b: VCode<I>)
        requires
            a.wf(),
            b.insts == a.insts,
            b.blocks == a.blocks,
            b.block_preds == a.block_preds,
            b.block_succs == a.block_succs,
            b.block_params == a.block_params,
            b.operands == a.operands,
            b.open == a.open,
            b.num_spills >= 2,
        ensures
            b.wf(),
    {
        assert(b.spec_blocks() == a.spec_blocks());
        assert(b.spec_succs() == a.spec_succs());
        assert(b.spec_preds() == a.spec_preds());
        assert forall|i: int| 0 <= i < b.spec_blocks().len() implies {
            &&& #[trigger] b.block_start(i) == (if i == 0 {
                0int
            } else {
                b.block_end(i - 1)
            })
            &&& b.block_start(i) <= b.block_end(i)
        } by {
            assert(a.block_start(i) == b.block_start(i));
            assert(a.block_end(i) == b.block_end(i));
            if i > 0 {
                assert(a.block_end(i - 1) == b.block_end(i - 1));
            }
        }
        assert forall|bb: int, j: int|
            0 <= bb < b.spec_succs().len() && 0 <= j < b.spec_succs()[bb].len() implies (
        #[trigger] b.spec_succs()[bb][j]).0 < b.spec_blocks().len() by {
            assert((a.spec_succs()[bb][j]).0 < a.spec_blocks().len());
        }
        assert forall|bb: int, j: int|
            0 <= bb < b.spec_preds().len() && 0 <= j < b.spec_preds()[bb].len() implies (
        #[trigger] b.spec_preds()[bb][j]).0 < b.spec_blocks().len() by {
            assert((a.spec_preds()[bb][j]).0 < a.spec_blocks().len());
        }
        assert forall|p: int, q: int|
            0 <= p < b.spec_blocks().len() && 0 <= q < b.spec_blocks().len() implies (
        #[trigger] b.spec_succs()[p].contains(BlockId(q as usize)) <==> #[trigger] b.spec_preds()[q].contains(
            BlockId(p as usize),
        )) by {
            assert(a.spec_succs()[p].contains(BlockId(q as usize)) <==> a.spec_preds()[q].contains(
                BlockId(p as usize),
            ));
        }
    }

    /// Create a new unused virtual register of the given class.
    /// Registers are handed out monotonically and never reused within a
    /// procedure.
    pub fn fresh_vreg(&mut self, class: RegClass) -> (v: VReg)
        requires
            old(self).wf(),
            old(self).spec_num_vregs() < usize::MAX,
        ensures
            final(self).wf(),
            v.index as int == old(self).spec_num_vregs(),
            v.class == class,
            final(self).spec_num_vregs() == old(self).spec_num_vregs() + 1,
            final(self).spec_insts() == old(self).spec_insts(),
            final(self).spec_blocks() == old(self).spec_blocks(),
            final(self).spec_preds() == old(self).spec_preds(),
            final(self).spec_succs() == old(self).spec_succs(),
            final(self).spec_params() == old(self).spec_params(),
            final(self).spec_operands() == old(self).spec_operands(),
            final(self).spec_num_spills() == old(self).spec_num_spills(),
            final(self).spec_outgoing() == old(self).spec_outgoing(),
            final(self).is_open() == old(self).is_open(),
            final(self).params_total() == old(self).params_total(),
            final(self).operands_total() == old(self).operands_total(),
    {
        let v = VReg::new(self.num_vregs, class);
        self.num_vregs = self.num_vregs + 1;
        proof {
            Self::lemma_wf_same_storage(*old(self), *self);
        }
        v
    }

    /// Create a new unused spill slot. Slots are handed out monotonically,
    /// starting above the two reserved sentinel slots, so the result is
    /// never [`SpillId::incoming`] or [`SpillId::outgoing`] and never a slot
    /// returned before.
    pub fn fresh_spill(&mut self) -> (s: SpillId)
        requires
            old(self).wf(),
            old(self).spec_num_spills() < usize::MAX,
        ensures
            final(self).wf(),
            s.0 as int == old(self).spec_num_spills(),
            s.0 >= 2,
            final(self).spec_num_spills() == old(self).spec_num_spills() + 1,
            final(self).spec_insts() == old(self).spec_insts(),
            final(self).spec_blocks() == old(self).spec_blocks(),
            final(self).spec_preds() == old(self).spec_preds(),
            final(self).spec_succs() == old(self).spec_succs(),
            final(self).spec_params() == old(self).spec_params(),
            final(self).spec_operands() == old(self).spec_operands(),
            final(self).spec_num_vregs() == old(self).spec_num_vregs(),
            final(self).spec_outgoing() == old(self).spec_outgoing(),
            final(self).is_open() == old(self).is_open(),
            final(self).params_total() == old(self).params_total(),
            final(self).operands_total() == old(self).operands_total(),
    {
        let s = SpillId::from_usize(self.num_spills);
        self.num_spills = self.num_spills + 1;
        proof {
            Self::lemma_wf_same_storage(*old(self), *self);
        }
        s
    }

    /// Make space in the outgoing-argument stack region: remember the
    /// largest size requested across all call sites so far.
    pub fn mk_outgoing_spill(&mut self, sz: u32)
        requires
            old(self).wf(),
        ensures
            final(self).wf(),
            final(self).spec_outgoing() == reserve_step(old(self).spec_outgoing(), sz),
            final(self).spec_insts() == old(self).spec_insts(),
            final(self).spec_blocks() == old(self).spec_blocks(),
            final(self).spec_preds() == old(self).spec_preds(),
            final(self).spec_succs() == old(self).spec_succs(),
            final(self).spec_params() == old(self).spec_params(),
            final(self).spec_operands() == old(self).spec_operands(),
            final(self).spec_num_vregs() == old(self).spec_num_vregs(),
            final(self).spec_num_spills() == old(self).spec_num_spills(),
            final(self).is_open() == old(self).is_open(),
            final(self).params_total() == old(self).params_total(),
            final(self).operands_total() == old(self).operands_total(),
    {
        let old_sz = match self.outgoing_spill_size {
            None => 0,
            Some(p) => p,
        };
        self.outgoing_spill_size = Some(if old_sz >= sz {
            old_sz
        } else {
            sz
        });
        proof {
            Self::lemma_wf_same_storage(*old(self), *self);
        }
    }

    /// Chaining of block ranges depends only on the block table.
    proof fn lemma_ranges_chained_congruence(a: VCode<I>, b: VCode<I>)
        requires
            a.ranges_chained(),
            b.spec_blocks() == a.spec_blocks(),
        ensures
            b.ranges_chained(),
    {
        assert forall|i: int| 0 <= i < b.spec_blocks().len() implies {
            &&& #[trigger] b.block_start(i) == (if i == 0 {
                0int
            } else {
                b.block_end(i - 1)
            })
            &&& b.block_start(i) <= b.block_end(i)
        } by {
            assert(a.block_start(i) == b.block_start(i));
            assert(a.block_end(i) == b.block_end(i));
            if i > 0 {
                assert(a.block_end(i - 1) == b.block_end(i - 1));
            }
        }
    }

    /// Validity and symmetry of the edge lists depend only on the adjacency
    /// tables and the number of blocks.
    proof fn lemma_edges_congruence(a: VCode<I>, b: VCode<I>)
        requires
            a.edges_in_bounds(),
            a.edges_symmetric(),
            b.spec_succs() == a.spec_succs(),
            b.spec_preds() == a.spec_preds(),
            b.spec_blocks().len() == a.spec_blocks().len(),
        ensures
            b.edges_in_bounds(),
            b.edges_symmetric(),
    {
        assert forall|bb: int, j: int|
            0 <= bb < b.spec_succs().len() && 0 <= j < b.spec_succs()[bb].len() implies (
        #[trigger] b.spec_succs()[bb][j]).0 < b.spec_blocks().len() by {
            assert((a.spec_succs()[bb][j]).0 < a.spec_blocks().len());
        }
        assert forall|bb: int, j: int|
            0 <= bb < b.spec_preds().len() && 0 <= j < b.spec_preds()[bb].len() implies (
        #[trigger] b.spec_preds()[bb][j]).0 < b.spec_blocks().len() by {
            assert((a.spec_preds()[bb][j]).0 < a.spec_blocks().len());
        }
        assert forall|p: int, q: int|
            0 <= p < b.spec_blocks().len() && 0 <= q < b.spec_blocks().len() implies (
        #[trigger] b.spec_succs()[p].contains(BlockId(q as usize)) <==> #[trigger] b.spec_preds()[q].contains(
            BlockId(p as usize),
        )) by {
            assert(a.spec_succs()[p].contains(BlockId(q as usize)) <==> a.spec_preds()[q].contains(
                BlockId(p as usize),
            ));
        }
    }

    /// Start a new block whose instruction range begins at the current end
    /// of the instruction store, with the given parameter list and empty
    /// predecessor and successor sets. Blocks must be started in the order
    /// they are numbered; an earlier block can never be reopened.
    pub fn new_block(&mut self, params: Vec<VReg>) -> (b: BlockId)
        requires
            old(self).wf(),
            !old(self).is_open(),
            old(self).params_total() + params@.len() <= u32::MAX,
        ensures
            final(self).wf(),
            final(self).is_open(),
            b.0 == old(self).spec_blocks().len(),
            final(self).spec_blocks() == old(self).spec_blocks().push(
                (
                    InstId(old(self).spec_insts().len() as usize),
                    InstId(old(self).spec_insts().len() as usize),
                ),
            ),
            final(self).spec_preds() == old(self).spec_preds().push(Seq::<BlockId>::empty()),
            final(self).spec_succs() == old(self).spec_succs().push(Seq::<BlockId>::empty()),
            final(self).spec_params() == old(self).spec_params().push(params@),
            final(self).spec_insts() == old(self).spec_insts(),
            final(self).spec_operands() == old(self).spec_operands(),
            final(self).spec_num_vregs() == old(self).spec_num_vregs(),
            final(self).spec_num_spills() == old(self).spec_num_spills(),
            final(self).spec_outgoing() == old(self).spec_outgoing(),
            final(self).params_total() == old(self).params_total() + params@.len(),
            final(self).operands_total() == old(self).operands_total(),
    {
        let inst = InstId::from_usize(self.insts.len());
        let bl = BlockId::from_usize(self.blocks.len());
        self.blocks.push((inst, inst));
        self.block_preds.push(Vec::new());
        self.block_succs.push(Vec::new());
        self.block_params.push(params);
        self.open = Ghost(true);
        proof {
            let pre = old(self);
            let n = pre.spec_blocks().len() as int;
            assert(self.spec_preds() =~= pre.spec_preds().push(Seq::<BlockId>::empty()));
            assert(self.spec_succs() =~= pre.spec_succs().push(Seq::<BlockId>::empty()));
            assert forall|i: int| 0 <= i < self.spec_blocks().len() implies {
                &&& #[trigger] self.block_start(i) == (if i == 0 {
                    0int
                } else {
                    self.block_end(i - 1)
                })
                &&& self.block_start(i) <= self.block_end(i)
            } by {
                if i < n {
                    assert(pre.block_start(i) == self.block_start(i));
                    assert(pre.block_end(i) == self.block_end(i));
                    if i > 0 {
                        assert(pre.block_end(i - 1) == self.block_end(i - 1));
                    }
                } else {
                    assert(self.block_start(i) == pre.spec_insts().len());
                    if i > 0 {
                        assert(pre.block_end(i - 1) == pre.spec_insts().len());
                    }
                }
            }
            assert forall|bb: int, j: int|
                0 <= bb < self.spec_succs().len() && 0 <= j < self.spec_succs()[bb].len() implies (
            #[trigger] self.spec_succs()[bb][j]).0 < self.spec_blocks().len() by {
                if bb < n {
                    assert((pre.spec_succs()[bb][j]).0 < pre.spec_blocks().len());
                }
            }
            assert forall|bb: int, j: int|
                0 <= bb < self.spec_preds().len() && 0 <= j < self.spec_preds()[bb].len() implies (
            #[trigger] self.spec_preds()[bb][j]).0 < self.spec_blocks().len() by {
                if bb < n {
                    assert((pre.spec_preds()[bb][j]).0 < pre.spec_blocks().len());
                }
            }
            assert forall|p: int, q: int|
                0 <= p < self.spec_blocks().len() && 0 <= q < self.spec_blocks().len() implies (
            #[trigger] self.spec_succs()[p].contains(BlockId(q as usize))
                <==> #[trigger] self.spec_preds()[q].contains(BlockId(p as usize))) by {
                if p < n && q < n {
                    assert(self.spec_succs()[p] == pre.spec_succs()[p]);
                    assert(self.spec_preds()[q] == pre.spec_preds()[q]);
                    assert(pre.spec_succs()[p].contains(BlockId(q as usize))
                        <==> pre.spec_preds()[q].contains(BlockId(p as usize)));
                } else if p < n && q == n {
                    if pre.spec_succs()[p].contains(BlockId(q as usize)) {
                        let j = choose|j: int|
                            0 <= j < pre.spec_succs()[p].len() && pre.spec_succs()[p][j] == BlockId(
                                q as usize,
                            );
                        assert((pre.spec_succs()[p][j]).0 < n);
                        assert(false);
                    }
                    assert(!self.spec_preds()[q].contains(BlockId(p as usize)));
                } else if p == n && q < n {
                    if pre.spec_preds()[q].contains(BlockId(p as usize)) {
                        let j = choose|j: int|
                            0 <= j < pre.spec_preds()[q].len() && pre.spec_preds()[q][j] == BlockId(
                                p as usize,
                            );
                        assert((pre.spec_preds()[q][j]).0 < n);
                        assert(false);
                    }
                    assert(!self.spec_succs()[p].contains(BlockId(q as usize)));
                } else {
                    assert(!self.spec_succs()[p].contains(BlockId(q as usize)));
                    assert(!self.spec_preds()[q].contains(BlockId(p as usize)));
                }
            }
        }
        bl
    }

    /// Finalize the open block: set its range end to the current end of the
    /// instruction store. Must be called exactly once per started block,
    /// after all its instructions are emitted and before the next block is
    /// started.
    pub fn finish_block(&mut self)
        requires
            old(self).wf(),
            old(self).is_open(),
        ensures
            final(self).wf(),
            !final(self).is_open(),
            final(self).spec_blocks() == old(self).spec_blocks().update(
                old(self).spec_blocks().len() - 1,
                (
                    old(self).spec_blocks()[old(self).spec_blocks().len() - 1].0,
                    InstId(old(self).spec_insts().len() as usize),
                ),
            ),
            final(self).spec_preds() == old(self).spec_preds(),
            final(self).spec_succs() == old(self).spec_succs(),
            final(self).spec_params() == old(self).spec_params(),
            final(self).spec_insts() == old(self).spec_insts(),
            final(self).spec_operands() == old(self).spec_operands(),
            final(self).spec_num_vregs() == old(self).spec_num_vregs(),
            final(self).spec_num_spills() == old(self).spec_num_spills(),
            final(self).spec_outgoing() == old(self).spec_outgoing(),
            final(self).params_total() == old(self).params_total(),
            final(self).operands_total() == old(self).operands_total(),
    {
        let n = self.blocks.len();
        let e = InstId::from_usize(self.insts.len());
        self.blocks[n - 1].1 = e;
        self.open = Ghost(false);
        proof {
            let pre = old(self);
            let last = pre.spec_blocks().len() - 1;
            assert forall|i: int| 0 <= i < self.spec_blocks().len() implies {
                &&& #[trigger] self.block_start(i) == (if i == 0 {
                    0int
                } else {
                    self.block_end(i - 1)
                })
                &&& self.block_start(i) <= self.block_end(i)
            } by {
                assert(pre.block_start(i) == self.block_start(i));
                if i > 0 && i - 1 < last {
                    assert(pre.block_end(i - 1) == self.block_end(i - 1));
                }
                if i < last {
                    assert(pre.block_end(i) == self.block_end(i));
                }
            }
            Self::lemma_edges_congruence(*pre, *self);
        }
    }

    /// Add an edge in the CFG from `from` to `to`: append `to` to `from`'s
    /// successor list and `from` to `to`'s predecessor list. Both blocks
    /// must already exist; duplicate edges are allowed and kept, giving
    /// multigraph semantics for table-driven branches.
    pub fn add_edge(&mut self, from: BlockId, to: BlockId)
        requires
            old(self).wf(),
            from.0 < old(self).spec_blocks().len(),
            to.0 < old(self).spec_blocks().len(),
        ensures
            final(self).wf(),
            final(self).spec_succs() == old(self).spec_succs().update(
                from.0 as int,
                old(self).spec_succs()[from.0 as int].push(to),
            ),
            final(self).spec_preds() == old(self).spec_preds().update(
                to.0 as int,
                old(self).spec_preds()[to.0 as int].push(from),
            ),
            final(self).spec_blocks() == old(self).spec_blocks(),
            final(self).spec_params() == old(self).spec_params(),
            final(self).spec_insts() == old(self).spec_insts(),
            final(self).spec_operands() == old(self).spec_operands(),
            final(self).spec_num_vregs() == old(self).spec_num_vregs(),
            final(self).spec_num_spills() == old(self).spec_num_spills(),
            final(self).spec_outgoing() == old(self).spec_outgoing(),
            final(self).is_open() == old(self).is_open(),
            final(self).params_total() == old(self).params_total(),
            final(self).operands_total() == old(self).operands_total(),
    {
        let f = from.into_usize();
        let t = to.into_usize();
        let nblocks = self.blocks.len();
        self.block_succs[f].push(to);
        self.block_preds[t].push(from);
        proof {
            let pre = old(self);
            let n = pre.spec_blocks().len() as int;
            assert(n == nblocks);
            let fi = f as int;
            let ti = t as int;
            assert(self.spec_succs() =~= pre.spec_succs().update(
                fi,
                pre.spec_succs()[fi].push(to),
            ));
            assert(self.spec_preds() =~= pre.spec_preds().update(
                ti,
                pre.spec_preds()[ti].push(from),
            ));
            Self::lemma_ranges_chained_congruence(*pre, *self);
            assert forall|bb: int, j: int|
                0 <= bb < self.spec_succs().len() && 0 <= j < self.spec_succs()[bb].len() implies (
            #[trigger] self.spec_succs()[bb][j]).0 < self.spec_blocks().len() by {
                if bb == fi && j == pre.spec_succs()[fi].len() {
                    assert(self.spec_succs()[bb][j] == to);
                } else {
                    assert(self.spec_succs()[bb][j] == pre.spec_succs()[bb][j]);
                    assert((pre.spec_succs()[bb][j]).0 < n);
                }
            }
            assert forall|bb: int, j: int|
                0 <= bb < self.spec_preds().len() && 0 <= j < self.spec_preds()[bb].len() implies (
            #[trigger] self.spec_preds()[bb][j]).0 < self.spec_blocks().len() by {
                if bb == ti && j == pre.spec_preds()[ti].len() {
                    assert(self.spec_preds()[bb][j] == from);
                } else {
                    assert(self.spec_preds()[bb][j] == pre.spec_preds()[bb][j]);
                    assert((pre.spec_preds()[bb][j]).0 < n);
                }
            }
            assert forall|p: int, q: int|
                0 <= p < self.spec_blocks().len() && 0 <= q < self.spec_blocks().len() implies (
            #[trigger] self.spec_succs()[p].contains(BlockId(q as usize))
                <==> #[trigger] self.spec_preds()[q].contains(BlockId(p as usize))) by {
                lemma_push_contains(pre.spec_succs()[fi], to, BlockId(q as usize));
                lemma_push_contains(pre.spec_preds()[ti], from, BlockId(p as usize));
                assert(pre.spec_succs()[p].contains(BlockId(q as usize))
                    <==> pre.spec_preds()[q].contains(BlockId(p as usize)));
                if p == fi {
                    assert(self.spec_succs()[p] == pre.spec_succs()[fi].push(to));
                } else {
                    assert(self.spec_succs()[p] == pre.spec_succs()[p]);
                }
                if q == ti {
                    assert(self.spec_preds()[q] == pre.spec_preds()[ti].push(from));
                } else {
                    assert(self.spec_preds()[q] == pre.spec_preds()[q]);
                }
            }
        }
    }
}

impl<I> VCode<I> {
    /// The number of instructions emitted so far.
    pub fn num_insts(&self) -> (n: usize)
        ensures
            n == self.spec_insts().len(),
    {
        self.insts.len()
    }

    /// The number of blocks started so far.
    pub fn num_blocks(&self) -> (n: usize)
        ensures
            n == self.spec_blocks().len(),
    {
        self.blocks.len()
    }

    /// The entry block: always block `0`.
    pub fn entry_block(&self) -> (b: BlockId)
        ensures
            b.0 == 0,
    {
        BlockId(0)
    }

    /// The instruction range of a block.
    pub fn block_insns(&self, block: BlockId) -> (r: InstRange)
        requires
            self.wf(),
            block.0 < self.spec_blocks().len(),
        ensures
            r.from.0 as int == self.block_start(block.0 as int),
            r.to.0 as int == self.block_end(block.0 as int),
    {
        let (from, to) = self.blocks[block.0];
        InstRange { from, to }
    }

    /// The successor list of a block, as a direct view into the graph's
    /// storage.
    pub fn block_succs(&self, block: BlockId) -> (r: &[BlockId])
        requires
            self.wf(),
            block.0 < self.spec_blocks().len(),
        ensures
            r@ == self.spec_succs()[block.0 as int],
    {
        self.block_succs[block.0].as_slice()
    }

    /// The predecessor list of a block, as a direct view into the graph's
    /// storage.
    pub fn block_preds(&self, block: BlockId) -> (r: &[BlockId])
        requires
            self.wf(),
            block.0 < self.spec_blocks().len(),
        ensures
            r@ == self.spec_preds()[block.0 as int],
    {
        self.block_preds[block.0].as_slice()
    }

    /// The parameter list of a block, as a direct view into the graph's
    /// storage.
    pub fn block_params(&self, block: BlockId) -> (r: &[VReg])
        requires
            self.wf(),
            block.0 < self.spec_blocks().len(),
        ensures
            r@ == self.spec_params()[block.0 as int],
    {
        self.block_params.index(block.0)
    }

    /// The cached operand list of an instruction, as a direct view into the
    /// graph's storage.
    pub fn inst_operands(&self, insn: InstId) -> (r: &[Operand])
        requires
            self.wf(),
            insn.0 < self.spec_insts().len(),
        ensures
            r@ == self.spec_operands()[insn.0 as int],
    {
        self.operands.index(insn.0)
    }

    /// The stored payload of an instruction.
    pub fn inst(&self, insn: InstId) -> (r: &I)
        requires
            self.wf(),
            insn.0 < self.spec_insts().len(),
        ensures
            *r == self.spec_insts()[insn.0 as int],
    {
        &self.insts[insn.0]
    }

    /// The maximum outgoing-argument size reserved so far, or `None` if no
    /// call site has reserved any.
    pub fn outgoing_spill_size(&self) -> (r: Option<u32>)
        ensures
            r == self.spec_outgoing(),
    {
        self.outgoing_spill_size
    }

    /// The total number of virtual registers created.
    pub fn num_vregs(&self) -> (n: usize)
        ensures
            n as int == self.spec_num_vregs(),
    {
        self.num_vregs
    }

    /// The storage size assumed for a spill slot of the given class: one
    /// unit, whatever the class.
    pub fn spillslot_size(&self, _class: RegClass) -> (n: usize)
        ensures
            n == 1,
    {
        1
    }
}

impl<I: Inst> VCode<I> {
    /// Emit an instruction into the open block: ask the payload for its
    /// operand list exactly once, cache that list in the operand arena under
    /// the new instruction's identifier, and append the payload to the
    /// instruction store.
    pub fn emit(&mut self, inst: I) -> (i: InstId)
        requires
            old(self).wf(),
            old(self).is_open(),
            old(self).operands_total() + inst.spec_operands().len() <= u32::MAX,
        ensures
            final(self).wf(),
            final(self).is_open(),
            i.0 == old(self).spec_insts().len(),
            final(self).spec_insts() == old(self).spec_insts().push(inst),
            final(self).spec_operands() == old(self).spec_operands().push(inst.spec_operands()),
            final(self).spec_blocks() == old(self).spec_blocks(),
            final(self).spec_preds() == old(self).spec_preds(),
            final(self).spec_succs() == old(self).spec_succs(),
            final(self).spec_params() == old(self).spec_params(),
            final(self).spec_num_vregs() == old(self).spec_num_vregs(),
            final(self).spec_num_spills() == old(self).spec_num_spills(),
            final(self).spec_outgoing() == old(self).spec_outgoing(),
            final(self).params_total() == old(self).params_total(),
            final(self).operands_total() == old(self).operands_total()
                + inst.spec_operands().len(),
    {
        let i = InstId::from_usize(self.insts.len());
        let mut v: Vec<Operand> = Vec::new();
        inst.collect_operands(&mut v);
        self.operands.push(v);
        self.insts.push(inst);
        proof {
            let pre = old(self);
            assert(self.spec_operands() == pre.spec_operands().push(inst.spec_operands()));
            Self::lemma_ranges_chained_congruence(*pre, *self);
            Self::lemma_edges_congruence(*pre, *self);
        }
        i
    }

    /// Whether the instruction is a return, as reported by its payload.
    pub fn is_ret(&self, insn: InstId) -> (r: bool)
        requires
            self.wf(),
            insn.0 < self.spec_insts().len(),
        ensures
            r == self.spec_insts()[insn.0 as int].spec_is_ret(),
    {
        self.insts[insn.0].is_ret()
    }

    /// Whether the instruction is the end-of-block branch, as reported by
    /// its payload.
    pub fn is_branch(&self, insn: InstId) -> (r: bool)
        requires
            self.wf(),
            insn.0 < self.spec_insts().len(),
        ensures
            r == self.spec_insts()[insn.0 as int].spec_is_branch(),
    {
        self.insts[insn.0].is_branch()
    }

    /// The operand index at which the branch's outgoing blockparam
    /// arguments begin, as reported by its payload.
    pub fn branch_blockparam_arg_offset(&self, _block: BlockId, insn: InstId) -> (r: usize)
        requires
            self.wf(),
            insn.0 < self.spec_insts().len(),
        ensures
            r == self.spec_insts()[insn.0 as int].spec_blockparam_arg_offset(),
    {
        self.insts[insn.0].branch_blockparam_arg_offset()
    }

    /// If the instruction is a register-to-register move, its
    /// `(source, destination)` operand pair, enabling move coalescing.
    pub fn is_move(&self, insn: InstId) -> (r: Option<(Operand, Operand)>)
        requires
            self.wf(),
            insn.0 < self.spec_insts().len(),
        ensures
            r == self.spec_insts()[insn.0 as int].spec_is_move(),
    {
        self.insts[insn.0].is_move()
    }

    /// The physical registers the instruction destroys, as reported by its
    /// payload.
    pub fn inst_clobbers(&self, insn: InstId) -> (r: &[PReg])
        requires
            self.wf(),
            insn.0 < self.spec_insts().len(),
        ensures
            r@ == self.spec_insts()[insn.0 as int].spec_clobbers(),
    {
        self.insts[insn.0].clobbers()
    }

    /// The branch at instruction `i` of block `b` carries a complete set of
    /// outgoing blockparam arguments: from the offset the instruction
    /// reports up to the end of its operand list there is exactly one
    /// operand for every parameter of every successor of `b`, in successor
    /// order. The allocator relies on this exact layout to resolve block
    /// parameters across edges.
    pub open spec fn branch_aligned_at(self, b: int, i: int) -> bool {
        let off = self.spec_insts()[i].spec_blockparam_arg_offset() as int;
        &&& off <= self.spec_operands()[i].len()
        &&& self.spec_operands()[i].len() - off == self.succ_params_len_prefix(
            b,
            self.spec_succs()[b].len() as int,
        )
    }

    /// Every branch instruction in the graph is aligned with its block's
    /// successors. The builder cannot enforce this — edges may be added
    /// after the branch is emitted — so it is a convention of use, decided
    /// exactly by [`check_branches_aligned`](Self::check_branches_aligned).
    pub open spec fn branches_aligned(self) -> bool {
        forall|b: int, i: int|
            #![trigger self.block_start(b), self.spec_insts()[i]]
            0 <= b < self.spec_blocks().len() && self.block_start(b) <= i < self.block_end(b)
                && self.spec_insts()[i].spec_is_branch() ==> self.branch_aligned_at(b, i)
    }

    /// The blockparam arguments that the branch at instruction `i` of block
    /// `b` passes to its successor number `s`: the operands holding them,
    /// projected to their virtual registers.
    pub open spec fn branch_args_for(self, b: int, i: int, s: int) -> Seq<VReg> {
        let off = self.spec_insts()[i].spec_blockparam_arg_offset() as int;
        operand_vregs(
            self.spec_operands()[i].subrange(
                off + self.succ_params_len_prefix(b, s),
                off + self.succ_params_len_prefix(b, s + 1),
            ),
        )
    }

    /// The successor-ordered concatenation of the blockparam argument
    /// groups that the branch at instruction `i` of block `b` passes to its
    /// first `s` successors.
    pub open spec fn branch_args_concat(self, b: int, i: int, s: int) -> Seq<VReg>
        decreases s,
    {
        if s <= 0 {
            Seq::empty()
        } else {
            self.branch_args_concat(b, i, s - 1) + self.branch_args_for(b, i, s - 1)
        }
    }

    /// The concatenated argument groups of the first `s` successors cover
    /// the operand tail up to the `s`-th prefix sum.
    proof fn lemma_branch_args_concat_prefix(self, b: int, i: int, s: int)
        requires
            0 <= b < self.spec_succs().len(),
            0 <= i < self.spec_operands().len(),
            self.branch_aligned_at(b, i),
            0 <= s <= self.spec_succs()[b].len(),
        ensures
            self.branch_args_concat(b, i, s) == operand_vregs(
                self.spec_operands()[i].subrange(
                    self.spec_insts()[i].spec_blockparam_arg_offset() as int,
                    self.spec_insts()[i].spec_blockparam_arg_offset()
                        + self.succ_params_len_prefix(b, s),
                ),
            ),
        decreases s,
    {
        let off = self.spec_insts()[i].spec_blockparam_arg_offset() as int;
        let ops = self.spec_operands()[i];
        self.lemma_succ_params_prefix_nonneg(b, s);
        self.lemma_succ_params_prefix_mono(b, s, self.spec_succs()[b].len() as int);
        if s == 0 {
            assert(self.branch_args_concat(b, i, 0) =~= operand_vregs(
                ops.subrange(off, off + 0),
            ));
        } else {
            self.lemma_branch_args_concat_prefix(b, i, s - 1);
            self.lemma_succ_params_prefix_nonneg(b, s - 1);
            self.lemma_succ_params_prefix_mono(b, s - 1, s);
            assert(self.branch_args_concat(b, i, s) =~= operand_vregs(
                ops.subrange(off, off + self.succ_params_len_prefix(b, s)),
            ));
        }
    }

    /// The full blockparam layout law for one branch: if the branch at
    /// instruction `i` of block `b` is aligned, then the operand tail from
    /// its reported offset to the end of its operand list is exactly the
    /// concatenation, in successor order, of one argument group per
    /// successor — and each group is as long as that successor's parameter
    /// list.
    pub proof fn lemma_branch_args_decompose(self, b: int, i: int)
        requires
            self.wf(),
            0 <= b < self.spec_blocks().len(),
            0 <= i < self.spec_insts().len(),
            self.branch_aligned_at(b, i),
        ensures
            self.branch_args_concat(b, i, self.spec_succs()[b].len() as int) == operand_vregs(
                self.spec_operands()[i].subrange(
                    self.spec_insts()[i].spec_blockparam_arg_offset() as int,
                    self.spec_operands()[i].len() as int,
                ),
            ),
            forall|s: int|
                0 <= s < self.spec_succs()[b].len() ==> (#[trigger] self.branch_args_for(
                    b,
                    i,
                    s,
                )).len() == self.spec_params()[self.spec_succs()[b][s].0 as int].len(),
    {
        let n = self.spec_succs()[b].len() as int;
        self.lemma_wf_invariants();
        self.lemma_branch_args_concat_prefix(b, i, n);
        assert forall|s: int| 0 <= s < n implies (#[trigger] self.branch_args_for(b, i, s)).len()
            == self.spec_params()[self.spec_succs()[b][s].0 as int].len() by {
            self.lemma_succ_params_prefix_nonneg(b, s);
            self.lemma_succ_params_prefix_mono(b, s + 1, n);
            assert(self.succ_params_len_prefix(b, s + 1) == self.succ_params_len_prefix(b, s)
                + self.spec_params()[self.spec_succs()[b][s].0 as int].len());
        }
    }

    /// The combined number of block parameters of all successors of
    /// `block`, or `None` if that sum leaves the 32-bit range an operand
    /// list can reach.
    fn succ_params_total(&self, block: BlockId) -> (r: Option<u64>)
        requires
            self.wf(),
            block.0 < self.spec_blocks().len(),
        ensures
            ({
                let full = self.succ_params_len_prefix(
                    block.0 as int,
                    self.spec_succs()[block.0 as int].len() as int,
                );
                match r {
                    Some(t) => t == full && t <= u32::MAX,
                    None => full > u32::MAX,
                }
            }),
    {
        let ghost bi = block.0 as int;
        let succs = self.block_succs(block);
        let n = succs.len();
        let mut acc: u64 = 0;
        let mut j: usize = 0;
        proof {
            self.lemma_wf_invariants();
        }
        while j < n
            invariant
                self.wf(),
                block.0 < self.spec_blocks().len(),
                bi == block.0 as int,
                succs@ == self.spec_succs()[bi],
                n == succs@.len(),
                j <= n,
                acc as int == self.succ_params_len_prefix(bi, j as int),
                acc <= u32::MAX,
            decreases n - j,
        {
            let sb = succs[j];
            proof {
                assert((self.spec_succs()[bi][j as int]).0 < self.spec_blocks().len());
            }
            let params = self.block_params(sb);
            let t = params.len();
            proof {
                self.block_params.lemma_group_len_bounded(sb.0 as int);
            }
            let acc2 = acc + (t as u64);
            proof {
                assert(self.succ_params_len_prefix(bi, j + 1) == self.succ_params_len_prefix(
                    bi,
                    j as int,
                ) + self.spec_params()[sb.0 as int].len());
            }
            if acc2 > 0xffff_ffffu64 {
                proof {
                    self.lemma_succ_params_prefix_mono(bi, j + 1, n as int);
                }
                return None;
            }
            acc = acc2;
            j = j + 1;
        }
        Some(acc)
    }

    /// Decide whether every branch in the graph is aligned with its block's
    /// successors, in the sense of [`branches_aligned`](Self::branches_aligned).
    pub fn check_branches_aligned(&self) -> (r: bool)
        requires
            self.wf(),
        ensures
            r == self.branches_aligned(),
    {
        let nb = self.num_blocks();
        let mut b: usize = 0;
        while b < nb
            invariant
                self.wf(),
                nb == self.spec_blocks().len(),
                b <= nb,
                forall|bb: int, i: int|
                    #![trigger self.block_start(bb), self.spec_insts()[i]]
                    0 <= bb < b && self.block_start(bb) <= i < self.block_end(bb)
                        && self.spec_insts()[i].spec_is_branch() ==> self.branch_aligned_at(bb, i),
            decreases nb - b,
        {
            let range = self.block_insns(BlockId(b));
            let s = range.from.into_usize();
            let e = range.to.into_usize();
            proof {
                self.lemma_block_end_bounded(b as int);
            }
            let mut i: usize = s;
            while i < e
                invariant
                    self.wf(),
                    nb == self.spec_blocks().len(),
                    b < nb,
                    s as int == self.block_start(b as int),
                    e as int == self.block_end(b as int),
                    s <= i <= e,
                    e <= self.spec_insts().len(),
                    forall|bb: int, ii: int|
                        #![trigger self.block_start(bb), self.spec_insts()[ii]]
                        0 <= bb < b && self.block_start(bb) <= ii < self.block_end(bb)
                            && self.spec_insts()[ii].spec_is_branch() ==> self.branch_aligned_at(
                            bb,
                            ii,
                        ),
                    forall|ii: int|
                        s <= ii < i && (#[trigger] self.spec_insts()[ii]).spec_is_branch()
                            ==> self.branch_aligned_at(b as int, ii),
                decreases e - i,
            {
                if self.is_branch(InstId(i)) {
                    let off = self.branch_blockparam_arg_offset(BlockId(b), InstId(i));
                    let ops = self.inst_operands(InstId(i));
                    let nops = ops.len();
                    proof {
                        self.operands.lemma_group_len_bounded(i as int);
                    }
                    let total = self.succ_params_total(BlockId(b));
                    let ok: bool = if off <= nops {
                        match total {
                            Some(t) => (nops - off) as u64 == t,
                            None => false,
                        }
                    } else {
                        false
                    };
                    if !ok {
                        proof {
                            assert(!self.branch_aligned_at(b as int, i as int));
                            assert(self.branches_aligned() ==> self.branch_aligned_at(
                                b as int,
                                i as int,
                            ));
                        }
                        return false;
                    }
                }
                i = i + 1;
            }
            b = b + 1;
        }
        true
    }

    /// The blockparam arguments that the branch `insn` of block `block`
    /// passes to its successor number `succ_idx`, as virtual registers.
    /// There are exactly as many as that successor has parameters.
    #[verifier::loop_isolation(false)]
    pub fn branch_blockparams(&self, block: BlockId, insn: InstId, succ_idx: usize) -> (r: Vec<
        VReg,
    >)
        requires
            self.wf(),
            block.0 < self.spec_blocks().len(),
            insn.0 < self.spec_insts().len(),
            self.spec_insts()[insn.0 as int].spec_is_branch(),
            self.branch_aligned_at(block.0 as int, insn.0 as int),
            succ_idx < self.spec_succs()[block.0 as int].len(),
        ensures
            r@ == self.branch_args_for(block.0 as int, insn.0 as int, succ_idx as int),
            r@.len() == self.spec_params()[self.spec_succs()[block.0 as int][succ_idx as int].0 as int].len(),
    {
        let ghost bi = block.0 as int;
        let ghost ii = insn.0 as int;
        let off = self.branch_blockparam_arg_offset(block, insn);
        let succs = self.block_succs(block);
        let ops = self.inst_operands(insn);
        proof {
            self.lemma_wf_invariants();
            self.operands.lemma_group_len_bounded(ii);
            self.lemma_succ_params_prefix_nonneg(bi, succ_idx as int);
        }
        let mut acc: usize = 0;
        let mut j: usize = 0;
        while j < succ_idx
            invariant
                self.wf(),
                block.0 < self.spec_blocks().len(),
                insn.0 < self.spec_insts().len(),
                bi == block.0 as int,
                ii == insn.0 as int,
                self.branch_aligned_at(bi, ii),
                succ_idx < self.spec_succs()[bi].len(),
                off == self.spec_insts()[ii].spec_blockparam_arg_offset(),
                succs@ == self.spec_succs()[bi],
                ops@ == self.spec_operands()[ii],
                j <= succ_idx,
                acc as int == self.succ_params_len_prefix(bi, j as int),
                off + acc <= ops@.len(),
            decreases succ_idx - j,
        {
            let sb = succs[j];
            proof {
                assert((self.spec_succs()[bi][j as int]).0 < self.spec_blocks().len());
            }
            let params = self.block_params(sb);
            let t = params.len();
            proof {
                self.block_params.lemma_group_len_bounded(sb.0 as int);
                assert(self.succ_params_len_prefix(bi, j + 1) == self.succ_params_len_prefix(
                    bi,
                    j as int,
                ) + self.spec_params()[sb.0 as int].len());
                self.lemma_succ_params_prefix_mono(bi, j + 1, self.spec_succs()[bi].len() as int);
            }
            acc = acc + t;
            j = j + 1;
        }
        let sb = succs[succ_idx];
        proof {
            assert((self.spec_succs()[bi][succ_idx as int]).0 < self.spec_blocks().len());
        }
        let params = self.block_params(sb);
        let cnt = params.len();
        proof {
            self.block_params.lemma_group_len_bounded(sb.0 as int);
            assert(self.succ_params_len_prefix(bi, succ_idx + 1) == self.succ_params_len_prefix(
                bi,
                succ_idx as int,
            ) + self.spec_params()[sb.0 as int].len());
            self.lemma_succ_params_prefix_mono(
                bi,
                succ_idx + 1,
                self.spec_succs()[bi].len() as int,
            );
        }
        let mut out: Vec<VReg> = Vec::new();
        let mut k: usize = 0;
        while k < cnt
            invariant
                self.wf(),
                insn.0 < self.spec_insts().len(),
                ii == insn.0 as int,
                ops@ == self.spec_operands()[ii],
                k <= cnt,
                off + acc + cnt <= ops@.len(),
                acc as int == self.succ_params_len_prefix(bi, succ_idx as int),
                cnt == self.succ_params_len_prefix(bi, succ_idx + 1) - self.succ_params_len_prefix(
                    bi,
                    succ_idx as int,
                ),
                out@.len() == k,
                forall|m: int|
                    0 <= m < k ==> out@[m] == (#[trigger] ops@[off + acc + m]).vreg,
            decreases cnt - k,
        {
            let o = ops[off + acc + k];
            out.push(o.vreg);
            k = k + 1;
        }
        proof {
            let args = self.branch_args_for(bi, ii, succ_idx as int);
            assert(args.len() == cnt);
            assert forall|m: int| 0 <= m < cnt implies out@[m] == args[m] by {
                assert(ops@[off + acc + m] == self.spec_operands()[ii][off
                    + self.succ_params_len_prefix(bi, succ_idx as int) + m]);
            }
            assert(out@ =~= args);
        }
        out
    }
}

/// The contiguous range of instruction identifiers `[from, to)` owned by one
/// block.
#[derive(Clone, Copy, PartialEq, Eq, Structural, Debug)]
pub struct InstRange {
    /// The first instruction of the range.
    pub from: InstId,
    /// One past the last instruction of the range.
    pub to: InstId,
}

impl<I> VCode<I> {
    /// The structural facts that well-formedness guarantees, exported for
    /// callers: storage tables agree in length, the two sentinel spill
    /// slots always exist, block ranges are chained, and the CFG edge lists
    /// are in bounds and symmetric.
    pub proof fn lemma_wf_invariants(self)
        requires
            self.wf(),
        ensures
            self.spec_preds().len() == self.spec_blocks().len(),
            self.spec_succs().len() == self.spec_blocks().len(),
            self.spec_params().len() == self.spec_blocks().len(),
            self.spec_operands().len() == self.spec_insts().len(),
            self.spec_num_spills() >= 2,
            self.ranges_chained(),
            !self.is_open() ==> self.ranges_complete(),
            self.is_open() ==> self.open_block_pending(),
            self.edges_in_bounds(),
            self.edges_symmetric(),
    {
        assert(self.spec_preds().len() == self.block_preds@.len());
        assert(self.spec_succs().len() == self.block_succs@.len());
    }

    /// Every block that an earlier block precedes in numbering order ends
    /// no later than the later one begins.
    proof fn lemma_ranges_sorted(self, i: int, j: int)
        requires
            self.ranges_chained(),
            0 <= i < j < self.spec_blocks().len(),
        ensures
            self.block_end(i) <= self.block_start(j),
        decreases j - i,
    {
        if j == i + 1 {
        } else {
            self.lemma_ranges_sorted(i, j - 1);
        }
    }

    /// Every instruction below the end of block `j` lies in some block
    /// numbered at most `j`.
    proof fn lemma_ranges_cover_upto(self, j: int, k: int)
        requires
            self.ranges_chained(),
            0 <= j < self.spec_blocks().len(),
            0 <= k < self.block_end(j),
        ensures
            exists|b: int|
                0 <= b <= j && #[trigger] self.block_start(b) <= k < self.block_end(b),
        decreases j,
    {
        if k >= self.block_start(j) {
            assert(self.block_start(j) <= k < self.block_end(j));
        } else {
            assert(j > 0);
            self.lemma_ranges_cover_upto(j - 1, k);
        }
    }

    /// Once no block is open, the block instruction ranges, sorted by block
    /// identifier, form an exact, gap-free, non-overlapping partition of
    /// the instruction store: block 0 starts at instruction 0, consecutive
    /// ranges abut, the last range ends at the instruction count, and every
    /// instruction lies in exactly one block's range.
    pub proof fn lemma_blocks_partition(self)
        requires
            self.wf(),
            !self.is_open(),
        ensures
            self.spec_blocks().len() > 0 ==> self.block_start(0) == 0,
            forall|i: int|
                0 <= i < self.spec_blocks().len() ==> #[trigger] self.block_start(i)
                    <= self.block_end(i),
            forall|i: int|
                1 <= i < self.spec_blocks().len() ==> #[trigger] self.block_start(i)
                    == self.block_end(i - 1),
            forall|i: int, j: int|
                0 <= i < j < self.spec_blocks().len() ==> #[trigger] self.block_end(i)
                    <= #[trigger] self.block_start(j),
            self.spec_blocks().len() == 0 ==> self.spec_insts().len() == 0,
            self.spec_blocks().len() > 0 ==> self.block_end(self.spec_blocks().len() - 1)
                == self.spec_insts().len(),
    {
        assert forall|i: int, j: int| 0 <= i < j < self.spec_blocks().len() implies #[trigger] self.block_end(
            i,
        ) <= #[trigger] self.block_start(j) by {
            self.lemma_ranges_sorted(i, j);
        }
    }

    /// The non-overlap half of the partition law, pointwise: no instruction
    /// lies in the ranges of two different blocks.
    pub proof fn lemma_blocks_disjoint(self, k: int, b1: int, b2: int)
        requires
            self.wf(),
            0 <= b1 < self.spec_blocks().len(),
            0 <= b2 < self.spec_blocks().len(),
            self.block_start(b1) <= k < self.block_end(b1),
            self.block_start(b2) <= k < self.block_end(b2),
        ensures
            b1 == b2,
    {
        if b1 < b2 {
            self.lemma_ranges_sorted(b1, b2);
        }
        if b2 < b1 {
            self.lemma_ranges_sorted(b2, b1);
        }
    }

    /// The gap-free half of the partition law, pointwise: once no block is
    /// open, every instruction lies in some block's range.
    pub proof fn lemma_blocks_cover(self, k: int)
        requires
            self.wf(),
            !self.is_open(),
            0 <= k < self.spec_insts().len(),
        ensures
            exists|b: int|
                0 <= b < self.spec_blocks().len() && #[trigger] self.block_start(b) <= k
                    < self.block_end(b),
    {
        assert(self.spec_blocks().len() > 0);
        self.lemma_ranges_cover_upto(self.spec_blocks().len() - 1, k);
    }

    /// Edge symmetry, the exported form: a block `b` is a successor of `p`
    /// exactly when `p` is a predecessor of `b`.
    pub proof fn lemma_edge_symmetry(self, p: int, b: int)
        requires
            self.wf(),
            0 <= p < self.spec_blocks().len(),
            0 <= b < self.spec_blocks().len(),
        ensures
            self.spec_succs()[p].contains(BlockId(b as usize)) <==> self.spec_preds()[b].contains(
                BlockId(p as usize),
            ),
    {
    }

    /// What one `add_edge` call leaves behind: given the recorded effect on
    /// the adjacency tables, `to` is thereafter a successor of `from` and
    /// `from` a predecessor of `to`.
    pub proof fn lemma_add_edge_effect(pre: VCode<I>, post: VCode<I>, from: BlockId, to: BlockId)
        requires
            from.0 < pre.spec_blocks().len(),
            to.0 < pre.spec_blocks().len(),
            pre.spec_succs().len() == pre.spec_blocks().len(),
            pre.spec_preds().len() == pre.spec_blocks().len(),
            post.spec_succs() == pre.spec_succs().update(
                from.0 as int,
                pre.spec_succs()[from.0 as int].push(to),
            ),
            post.spec_preds() == pre.spec_preds().update(
                to.0 as int,
                pre.spec_preds()[to.0 as int].push(from),
            ),
        ensures
            post.spec_succs()[from.0 as int].contains(to),
            post.spec_preds()[to.0 as int].contains(from),
    {
        lemma_push_contains(pre.spec_succs()[from.0 as int], to, to);
        lemma_push_contains(pre.spec_preds()[to.0 as int], from, from);
    }
}

impl<I> VCode<I> {
    /// The combined number of block parameters of the first `upto`
    /// successors of block `b`, in successor order.
    pub open spec fn succ_params_len_prefix(self, b: int, upto: int) -> int
        decreases upto,
    {
        if upto <= 0 {
            0
        } else {
            self.succ_params_len_prefix(b, upto - 1) + self.spec_params()[self.spec_succs()[b][upto
                - 1].0 as int].len()
        }
    }

    /// Prefix sums of successor parameter counts are never negative.
    proof fn lemma_succ_params_prefix_nonneg(self, b: int, m: int)
        ensures
            0 <= self.succ_params_len_prefix(b, m),
        decreases m,
    {
        if m > 0 {
            self.lemma_succ_params_prefix_nonneg(b, m - 1);
        }
    }

    /// Prefix sums of successor parameter counts only grow.
    proof fn lemma_succ_params_prefix_mono(self, b: int, m: int, n: int)
        requires
            m <= n,
        ensures
            self.succ_params_len_prefix(b, m) <= self.succ_params_len_prefix(b, n),
        decreases n - m,
    {
        if m < n {
            self.lemma_succ_params_prefix_mono(b, m, n - 1);
        }
    }

    /// Every block's range end stays within the instruction store.
    proof fn lemma_block_end_bounded(self, b: int)
        requires
            self.wf(),
            0 <= b < self.spec_blocks().len(),
        ensures
            0 <= self.block_start(b) <= self.block_end(b) <= self.spec_insts().len(),
    {
        let last = self.spec_blocks().len() - 1;
        if b < last {
            self.lemma_ranges_sorted(b, last);
        }
        if self.block_start(0) != 0 {
            assert(false);
        }
        if b > 0 {
            self.lemma_ranges_sorted(0, b);
            assert(self.block_start(b) >= self.block_end(0) >= self.block_start(0));
        }
    }
}

/// Fresh virtual registers are never reused: the builder hands out the
/// register whose index is the current counter value and then advances the
/// counter, so registers handed out at different counter values differ,
/// whatever their classes.
pub proof fn lemma_fresh_vreg_distinct(n0: usize, c0: RegClass, n1: usize, c1: RegClass)
    requires
        n0 != n1,
    ensures
        (VReg { index: n0, class: c0 }) != (VReg { index: n1, class: c1 }),
{
}

/// Fresh spill slots are never reused and never collide with the reserved
/// sentinels: the builder hands out the slot numbered by the current
/// counter, which starts at two and only grows, while the caller's
/// incoming-argument area is slot 0 and the outgoing-argument area slot 1.
pub proof fn lemma_fresh_spill_distinct(n0: usize, n1: usize)
    requires
        n0 != n1,
        n0 >= 2,
    ensures
        SpillId(n0) != SpillId(n1),
        SpillId(n0) != SpillId(0),
        SpillId(n0) != SpillId(1),
{
}

/// The tracked outgoing-argument size after a whole sequence of
/// reservation requests, folded left to right from the unset state.
pub open spec fn reserve_fold(reqs: Seq<u32>) -> Option<u32>
    decreases reqs.len(),
{
    if reqs.len() == 0 {
        None
    } else {
        reserve_step(reserve_fold(reqs.drop_last()), reqs.last())
    }
}

/// The largest element of a non-empty sequence of sizes.
pub open spec fn seq_max(reqs: Seq<u32>) -> u32
    recommends
        reqs.len() > 0,
    decreases reqs.len(),
{
    if reqs.len() <= 1 {
        reqs[0]
    } else if seq_max(reqs.drop_last()) >= reqs.last() {
        seq_max(reqs.drop_last())
    } else {
        reqs.last()
    }
}

/// Outgoing-stack sizing: after any sequence of reservation requests the
/// tracked outgoing size is exactly the maximum requested, and with no
/// request at all it stays unset.
pub proof fn lemma_outgoing_is_max(reqs: Seq<u32>)
    ensures
        reqs.len() == 0 ==> reserve_fold(reqs) is None,
        reqs.len() > 0 ==> reserve_fold(reqs) == Some(seq_max(reqs)),
    decreases reqs.len(),
{
    if reqs.len() > 0 {
        lemma_outgoing_is_max(reqs.drop_last());
    }
}

/// The virtual registers named by a sequence of operands, in order.
pub open spec fn operand_vregs(s: Seq<Operand>) -> Seq<VReg> {
    s.map_values(|o: Operand| o.vreg)
}

/// What one reservation request does to the tracked outgoing-argument
/// size: the tracked value becomes the maximum of the request and
/// everything tracked before, starting from zero.
pub open spec fn reserve_step(prev: Option<u32>, sz: u32) -> Option<u32> {
    match prev {
        None => Some(sz),
        Some(p) => Some(
            if p >= sz {
                p
            } else {
                sz
            },
        ),
    }
}

/// Pushing an element onto a sequence extends what it contains by exactly
/// that element.
proof fn lemma_push_contains<A>(s: Seq<A>, x: A, y: A)
    ensures
        s.push(x).contains(y) <==> (s.contains(y) || y == x),
{
    if s.push(x).contains(y) {
        let i = choose|i: int| 0 <= i < s.push(x).len() && s.push(x)[i] == y;
        if i < s.len() {
            assert(s[i] == y);
        }
    }
    if s.contains(y) {
        let i = choose|i: int| 0 <= i < s.len() && s[i] == y;
        assert(s.push(x)[i] == y);
    }
    if y == x {
        assert(s.push(x)[s.len() as int] == y);
    }
}

impl<I> Default for VCode<I> {
    /// An empty procedure: no instructions, no blocks, no edges, no virtual
    /// registers, and only the two reserved spill slots.
    fn default() -> (c: Self)
        ensures
            c.wf(),
            !c.is_open(),
            c.spec_insts() == Seq::<I>::empty(),
            c.spec_blocks() == Seq::<(InstId, InstId)>::empty(),
            c.spec_preds() == Seq::<Seq<BlockId>>::empty(),
            c.spec_succs() == Seq::<Seq<BlockId>>::empty(),
            c.spec_params() == Seq::<Seq<VReg>>::empty(),
            c.spec_operands() == Seq::<Seq<Operand>>::empty(),
            c.spec_num_vregs() == 0,
            c.spec_num_spills() == 2,
            c.spec_outgoing() is None,
            c.params_total() == 0,
            c.operands_total() == 0,
    {
        let c = VCode {
            insts: Vec::new(),
            blocks: Vec::new(),
            block_preds: Vec::new(),
            block_succs: Vec::new(),
            block_params: ChunkVec::new(),
            operands: ChunkVec::new(),
            num_vregs: 0,
            num_spills: 2,  // the incoming and outgoing sentinels
            outgoing_spill_size: None,
            open: Ghost(false),
        };
        proof {
            assert(c.spec_preds() =~= Seq::<Seq<BlockId>>::empty());
            assert(c.spec_succs() =~= Seq::<Seq<BlockId>>::empty());
        }
        c
    }
}

} // verus!
