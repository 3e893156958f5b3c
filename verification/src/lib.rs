//! A low-level intermediate representation for a compiler backend: a
//! procedure is a control-flow graph of basic blocks holding
//! machine-oriented instructions over virtual registers, built once by an
//! append-only builder and then handed, read-only, to a register allocator.

pub mod abi;
pub mod bytes;
pub mod chunks;
pub mod flags;
pub mod graph;
pub mod idx;
pub mod inst;

pub use abi::{ArgAbi, ProcAbi, Size};
pub use chunks::ChunkVec;
pub use graph::{Inst, InstRange, VCode};
pub use idx::{BlockId, InstId, Operand, OperandConstraint, OperandKind, OperandPos, PReg, RegClass,
    SpillId, VReg};
pub use inst::{BasicInst, BasicInstKind};
