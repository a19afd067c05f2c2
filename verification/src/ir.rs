//! The intermediate representation: functions made of basic blocks, each a
//! run of instructions that ends in one transfer of control.
//!
//! An instruction that yields a result is named by where it stands, so each
//! temporary is defined by exactly one instruction.

use vstd::prelude::*;
use crate::ast::FuncType;

verus! {

/// Something an instruction can use: a constant, the result of the
/// instruction at a place of a block, a parameter of the function by its
/// position, or the address of a global by its position.
#[derive(Debug, Clone, Copy, PartialEq, Eq, Structural)]
pub enum Value {
    Const(i64),
    Temp(usize, usize),
    Param(usize),
    Global(usize),
}

/// The operation of a binary instruction. A comparison yields one or zero.
#[derive(Debug, Clone, Copy, PartialEq, Eq, Structural)]
pub enum BinOp {
    Add,
    Sub,
    Mul,
    Div,
    Mod,
    Eq,
    Ne,
    Lt,
    Gt,
    Le,
    Ge,
}

#[derive(Debug, PartialEq, Eq)]
pub enum Inst {
    /// Reserves so many cells of memory and yields the address of the first.
    Alloc(i64),
    /// Yields the outcome of the operation on the two operands.
    Binary(BinOp, Value, Value),
    /// Yields what the cell at the address holds.
    Load(Value),
    /// Puts the first operand into the cell at the second, an address.
    Store(Value, Value),
    /// Yields the address that lies index times stride cells after the
    /// base: base, index, stride.
    Offset(Value, Value, i64),
    /// Hands the operand to the next call as its next argument.
    Arg(Value),
    /// Calls the function of that name with the last so many arguments that
    /// were handed over, and yields what it returns, if it returns
    /// anything.
    Call(String, usize),
    /// Goes to the first block where the operand is not zero, else to the
    /// second.
    Branch(Value, usize, usize),
    /// Goes to the block.
    Jump(usize),
    /// Leaves the function, with a value or without.
    Return(Option<Value>),
}

impl Inst {
    /// Whether the instruction transfers control.
    pub open spec fn is_terminator(self) -> bool {
        self is Branch || self is Jump || self is Return
    }

    /// Whether every block that the instruction goes to is one of the first
    /// `n`.
    pub open spec fn targets_below(self, n: int) -> bool {
        match self {
            Inst::Branch(_, then_to, else_to) => then_to < n && else_to < n,
            Inst::Jump(to) => to < n,
            _ => true,
        }
    }
}

/// Whether no instruction transfers control: the block can still grow.
pub open spec fn block_open(insts: Seq<Inst>) -> bool {
    forall|i: int| 0 <= i < insts.len() ==> !(#[trigger] insts[i]).is_terminator()
}

/// Whether the block is finished: it is not empty, its last instruction
/// transfers control and no other does.
pub open spec fn block_closed(insts: Seq<Inst>) -> bool {
    &&& insts.len() > 0
    &&& insts.last().is_terminator()
    &&& block_open(insts.drop_last())
}

/// Whether every instruction of the block goes only to the first `n`
/// blocks.
pub open spec fn block_targets_below(insts: Seq<Inst>, n: int) -> bool {
    forall|i: int| 0 <= i < insts.len() ==> (#[trigger] insts[i]).targets_below(n)
}

#[derive(Debug, PartialEq, Eq)]
pub struct BasicBlock {
    pub insts: Vec<Inst>,
}

/// A function: its blocks in the order they were made, the first one the
/// entry.
#[derive(Debug, PartialEq, Eq)]
pub struct Function {
    pub name: String,
    pub ret: FuncType,
    pub params: usize,
    pub blocks: Vec<BasicBlock>,
}

/// A global: its name and the initial value of each of its cells.
#[derive(Debug, PartialEq, Eq)]
pub struct Global {
    pub name: String,
    pub init: Vec<i64>,
}

/// What a compilation unit lowers to.
#[derive(Debug, PartialEq, Eq)]
pub struct Module {
    pub globals: Vec<Global>,
    pub functions: Vec<Function>,
}

/// Whether the blocks make up a well-formed function body: there is an
/// entry, every block is finished, and control goes only to blocks that
/// exist.
pub open spec fn blocks_well_formed(blocks: Seq<BasicBlock>) -> bool {
    &&& blocks.len() > 0
    &&& forall|i: int|
        0 <= i < blocks.len() ==> block_closed((#[trigger] blocks[i]).insts@)
            && block_targets_below(blocks[i].insts@, blocks.len() as int)
}

/// Whether every function of the module is well formed.
pub open spec fn module_well_formed(m: Module) -> bool {
    forall|i: int|
        0 <= i < m.functions@.len() ==> blocks_well_formed((#[trigger] m.functions@[i]).blocks@)
}

} // verus!
