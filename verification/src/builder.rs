//! Building a function block by block. One block is current and takes the
//! instructions; blocks made ahead of their turn wait, empty, until control
//! is handed to them.

use vstd::prelude::*;
use crate::ir::{
    block_closed, block_open, block_targets_below, blocks_well_formed, BasicBlock, Inst, Value,
};

verus! {

/// The code of a function under construction: the instructions of each
/// block so far, and the block that takes the next one.
pub struct Code {
    pub blocks: Seq<Seq<Inst>>,
    pub cur: int,
}

/// The code after an instruction is appended to the current block.
pub open spec fn emitted(c: Code, inst: Inst) -> Code {
    Code { blocks: c.blocks.update(c.cur, c.blocks[c.cur].push(inst)), cur: c.cur }
}

/// The name of the result of the instruction that is appended next.
pub open spec fn next_value(c: Code) -> Value {
    Value::Temp(c.cur as usize, c.blocks[c.cur].len() as usize)
}

/// The code after an empty block is added, which waits for its turn; its
/// number is the number of blocks before.
pub open spec fn reserved(c: Code) -> Code {
    Code { blocks: c.blocks.push(Seq::empty()), cur: c.cur }
}

/// The code after the current block is ended with `term` and the block
/// `next` is made current.
pub open spec fn terminated(c: Code, term: Inst, next: int) -> Code {
    Code { blocks: c.blocks.update(c.cur, c.blocks[c.cur].push(term)), cur: next }
}

pub struct FunctionBuilder {
    blocks: Vec<BasicBlock>,
    cur: usize,
    insts: Vec<Inst>,
}

impl FunctionBuilder {
    /// The instructions of each block so far.
    pub closed spec fn view(&self) -> Seq<Seq<Inst>> {
        Seq::new(
            self.blocks@.len(),
            |i: int|
                if i == self.cur {
                    self.insts@
                } else {
                    self.blocks@[i].insts@
                },
        )
    }

    /// The block that takes the instructions.
    pub closed spec fn current(&self) -> int {
        self.cur as int
    }

    /// The code so far.
    pub open spec fn code(&self) -> Code {
        Code { blocks: self@, cur: self.current() }
    }

    /// How many blocks there are.
    pub open spec fn len(&self) -> int {
        self@.len() as int
    }

    /// The blocks that wait for their turn: the empty ones but the current.
    pub closed spec fn pending(&self) -> Set<int> {
        Set::new(|i: int| 0 <= i < self@.len() && i != self.current() && self@[i].len() == 0)
    }

    /// The invariant of a function under construction: the current block
    /// can still grow, every other block is finished or waits, and control
    /// goes only to blocks that exist.
    pub closed spec fn inv(&self) -> bool {
        &&& self.cur < self.blocks@.len()
        &&& self.blocks@[self.cur as int].insts@.len() == 0
        &&& block_open(self.insts@)
        &&& block_targets_below(self.insts@, self.blocks@.len() as int)
        &&& forall|i: int|
            0 <= i < self.blocks@.len() ==> {
                let b = (#[trigger] self.blocks@[i]).insts@;
                (b.len() == 0 || block_closed(b)) && block_targets_below(
                    b,
                    self.blocks@.len() as int,
                )
            }
    }

    /// What the invariant says of the blocks.
    pub proof fn lemma_inv(&self)
        requires
            self.inv(),
        ensures
            0 <= self.current() < self.len(),
            block_open(self@[self.current()]),
            forall|i: int|
                0 <= i < self.len() && i != self.current() ==> (#[trigger] self@[i]).len() == 0
                    || block_closed(self@[i]),
            forall|i: int|
                0 <= i < self.len() ==> block_targets_below(#[trigger] self@[i], self.len()),
            forall|i: int|
                self.pending().contains(i) <==> 0 <= i < self.len() && i != self.current()
                    && self@[i].len() == 0,
    {
    }

    /// A function with its entry block, empty and current.
    pub fn new() -> (b: FunctionBuilder)
        ensures
            b.inv(),
            b@ == seq![Seq::<Inst>::empty()],
            b.current() == 0,
            b.pending() == Set::<int>::empty(),
    {
        let mut blocks: Vec<BasicBlock> = Vec::new();
        blocks.push(BasicBlock { insts: Vec::new() });
        let b = FunctionBuilder { blocks, cur: 0, insts: Vec::new() };
        proof {
            assert(b@ =~= seq![Seq::<Inst>::empty()]);
            assert(b.pending() =~= Set::<int>::empty());
        }
        b
    }

    /// Adds an empty block that waits for its turn, and returns its number.
    pub fn new_block(&mut self) -> (id: usize)
        requires
            old(self).inv(),
        ensures
            final(self).inv(),
            id == old(self).len(),
            final(self)@ == old(self)@.push(Seq::empty()),
            final(self).current() == old(self).current(),
            final(self).len() == old(self).len() + 1,
            final(self).pending() == old(self).pending().insert(id as int),
            !old(self).pending().contains(id as int),
            final(self).code() == reserved(old(self).code()),
    {
        let id = self.blocks.len();
        self.blocks.push(BasicBlock { insts: Vec::new() });
        proof {
            assert(self@ =~= old(self)@.push(Seq::empty()));
            assert(self.pending() =~= old(self).pending().insert(id as int));
            assert forall|i: int| 0 <= i < self.blocks@.len() implies {
                let b = (#[trigger] self.blocks@[i]).insts@;
                (b.len() == 0 || block_closed(b)) && block_targets_below(
                    b,
                    self.blocks@.len() as int,
                )
            } by {
                if i < id {
                    assert(self.blocks@[i] == old(self).blocks@[i]);
                }
            }
        }
        id
    }

    /// Appends an instruction that does not transfer control to the current
    /// block, and returns the name of its result.
    pub fn emit(&mut self, inst: Inst) -> (v: Value)
        requires
            old(self).inv(),
            !inst.is_terminator(),
        ensures
            final(self).inv(),
            final(self)@ == old(self)@.update(
                old(self).current(),
                old(self)@[old(self).current()].push(inst),
            ),
            final(self).current() == old(self).current(),
            final(self).len() == old(self).len(),
            final(self).pending() == old(self).pending(),
            v == Value::Temp(
                old(self).current() as usize,
                old(self)@[old(self).current()].len() as usize,
            ),
            final(self).code() == emitted(old(self).code(), inst),
            v == next_value(old(self).code()),
    {
        let v = Value::Temp(self.cur, self.insts.len());
        self.insts.push(inst);
        proof {
            assert(self@ =~= old(self)@.update(
                old(self).current(),
                old(self)@[old(self).current()].push(inst),
            ));
            assert(self.pending() =~= old(self).pending());
        }
        v
    }

    /// Ends the current block with `term` and makes the waiting block
    /// `next` current.
    pub fn terminate(&mut self, term: Inst, next: usize)
        requires
            old(self).inv(),
            term.is_terminator(),
            term.targets_below(old(self).len()),
            old(self).pending().contains(next as int),
        ensures
            final(self).inv(),
            final(self)@ == old(self)@.update(
                old(self).current(),
                old(self)@[old(self).current()].push(term),
            ),
            final(self).current() == next,
            final(self).len() == old(self).len(),
            final(self).pending() == old(self).pending().remove(next as int),
            final(self).code() == terminated(old(self).code(), term, next as int),
    {
        let mut insts: Vec<Inst> = Vec::new();
        std::mem::swap(&mut insts, &mut self.insts);
        insts.push(term);
        let done = self.cur;
        proof {
            assert(insts@.drop_last() =~= old(self).insts@);
        }
        self.blocks.set(done, BasicBlock { insts });
        self.cur = next;
        proof {
            assert(old(self)@[next as int] == old(self).blocks@[next as int].insts@);
            assert(self.insts@ =~= Seq::<Inst>::empty());
            assert(self@ =~~= old(self)@.update(
                old(self).current(),
                old(self)@[old(self).current()].push(term),
            ));
            assert(self.pending() =~= old(self).pending().remove(next as int));
        }
    }

    /// Ends the current block with `term`, which leaves the function, and
    /// hands the blocks over. No block may be left waiting.
    pub fn finish(self, term: Inst) -> (blocks: Vec<BasicBlock>)
        requires
            self.inv(),
            term is Return,
            self.pending() == Set::<int>::empty(),
        ensures
            blocks_well_formed(blocks@),
            blocks@.len() == self.len(),
            forall|i: int|
                0 <= i < blocks@.len() ==> (#[trigger] blocks@[i]).insts@ == if i
                    == self.current() {
                    self@[i].push(term)
                } else {
                    self@[i]
                },
    {
        let FunctionBuilder { mut blocks, cur, mut insts } = self;
        insts.push(term);
        proof {
            assert(insts@.drop_last() =~= self.insts@);
        }
        blocks.set(cur, BasicBlock { insts });
        proof {
            assert forall|i: int| 0 <= i < blocks@.len() implies block_closed(
                (#[trigger] blocks@[i]).insts@,
            ) && block_targets_below(blocks@[i].insts@, blocks@.len() as int) by {
                if i != cur {
                    assert(blocks@[i] == self.blocks@[i]);
                    assert(!self.pending().contains(i));
                    assert(self@[i] == self.blocks@[i].insts@);
                }
            }
        }
        blocks
    }
}

} // verus!
