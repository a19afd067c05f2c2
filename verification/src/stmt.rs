//! Lowering of statements: assignments, blocks with their scopes, and the
//! control flow of `if`, `while`, `break`, `continue` and `return` as
//! branches and jumps between basic blocks.

use vstd::pervasive::unreached;
use vstd::prelude::*;
use crate::ast::{Block, BlockItem, Exp, FuncType, LVal, Stmt};
use crate::builder::FunctionBuilder;
use crate::code::code_exp;
use crate::code_stmt::{
    code_assign, code_block, code_if, code_item, code_items, code_return, code_stmt, code_while,
    jumped, loop_target,
};
use crate::decl::lower_local_decl;
use crate::error::SemanticError;
use crate::ir::{Inst, Value};
use crate::loops::{LoopStack, LoopTarget};
use crate::lower::{as_int, grown, lower_exp};
use crate::place::lower_place;
use crate::scope::{entered, outer_kept, Placed, Scopes, Sym, SymbolTable};
use crate::semantics::{
    assignable, check_block, check_item, check_items, check_stmt, kind_exp, lemma_item_outer,
    need_int, ExpKind,
};

verus! {

/// Whether a statement has been lowered from the state `t0`, `b0`, `l0` to
/// the state `t1`, `b1`, `l1`: the scopes and the enclosing loops are as
/// before, and the function has grown.
pub open spec fn settled(
    t0: SymbolTable,
    t1: SymbolTable,
    b0: FunctionBuilder,
    b1: FunctionBuilder,
    l0: LoopStack,
    l1: LoopStack,
) -> bool {
    &&& t1.wf()
    &&& t1.env() == t0.env()
    &&& t1.places() == t0.places()
    &&& grown(b0, b1)
    &&& l1@ == l0@
}

/// Lowers an expression that has to be a number.
pub fn lower_int(e: &Exp, table: &SymbolTable, b: &mut FunctionBuilder) -> (r: Result<
    Value,
    SemanticError,
>)
    requires
        table.wf(),
        old(b).inv(),
    ensures
        need_int(kind_exp(*e, table.env())) == match r {
            Ok(_) => Ok(()),
            Err(e) => Err::<(), SemanticError>(e),
        },
        r matches Ok(v) ==> grown(*old(b), *final(b)) && (final(b).code(), v) == code_exp(
            *e,
            table.places(),
            old(b).code(),
        ),
{
    let v = lower_exp(e, table, b)?;
    as_int(v)
}

/// Lowers an assignment: finds the place of the left side, lowers the
/// right side, and stores its value in the place.
fn lower_assign(lval: &LVal, e: &Exp, table: &SymbolTable, b: &mut FunctionBuilder) -> (r: Result<
    (),
    SemanticError,
>)
    requires
        table.wf(),
        old(b).inv(),
    ensures
        match assignable(*lval, table.env()) {
            Err(e) => Err(e),
            Ok(()) => need_int(kind_exp(*e, table.env())),
        } == r,
        r is Ok ==> grown(*old(b), *final(b)) && final(b).code() == code_assign(
            *lval,
            *e,
            table.places(),
            old(b).code(),
        ),
{
    let place = lower_place(lval, table, b)?;
    match place.kind {
        ExpKind::Int => {},
        _ => {
            return Err(SemanticError::TypeMismatch);
        },
    }
    if !place.writable {
        return Err(SemanticError::TypeMismatch);
    }
    let v = lower_int(e, table, b)?;
    b.emit(Inst::Store(v, place.value));
    Ok(())
}

/// Lowers `break` and `continue`: a jump to where the innermost enclosing
/// loop ends or tests its condition. What follows in the source starts a
/// block of its own, which nothing reaches.
fn lower_jump(s: &Stmt, b: &mut FunctionBuilder, loops: &LoopStack) -> (r: Result<
    (),
    SemanticError,
>)
    requires
        *s is Break || *s is Continue,
        old(b).inv(),
        loops.below(old(b).len()),
    ensures
        r == if loops@.len() > 0 {
            Ok(())
        } else if *s is Break {
            Err::<(), SemanticError>(SemanticError::BreakOutsideLoop)
        } else {
            Err::<(), SemanticError>(SemanticError::ContinueOutsideLoop)
        },
        r is Ok ==> grown(*old(b), *final(b)) && final(b).code() == jumped(
            old(b).code(),
            if *s is Break {
                loops@.last().exit
            } else {
                loops@.last().cond
            },
        ),
{
    let to = match s {
        Stmt::Break => loops.break_target()?,
        _ => loops.continue_target()?,
    };
    let ghost waiting = b.pending();
    let next = b.new_block();
    b.terminate(Inst::Jump(to), next);
    proof {
        assert(b.pending() =~= waiting);
    }
    Ok(())
}

/// Lowers `return`: in a function that returns a number, the value or,
/// where none is given, zero. What follows in the source starts a block of
/// its own, which nothing reaches.
fn lower_return(e: &Option<Exp>, table: &SymbolTable, b: &mut FunctionBuilder, ret: FuncType) -> (r:
    Result<(), SemanticError>)
    requires
        table.wf(),
        old(b).inv(),
    ensures
        check_stmt(Stmt::Return(*e), table.env(), false, ret) == r,
        r is Ok ==> grown(*old(b), *final(b)) && final(b).code() == code_return(
            *e,
            table.places(),
            ret,
            old(b).code(),
        ),
{
    let value = match e {
        Some(e) => match ret {
            FuncType::Void => {
                return Err(SemanticError::ReturnTypeMismatch);
            },
            FuncType::Int => Some(lower_int(e, table, b)?),
        },
        None => match ret {
            FuncType::Void => None,
            FuncType::Int => Some(Value::Const(0)),
        },
    };
    let ghost waiting = b.pending();
    let next = b.new_block();
    b.terminate(Inst::Return(value), next);
    proof {
        assert(b.pending() =~= waiting);
    }
    Ok(())
}

/// Lowers `if`: a branch on the condition to the block of the first
/// branch, or else to the block of the second branch or of what follows;
/// each branch ends in a jump to what follows.
fn lower_if(
    s: &Stmt,
    table: &mut SymbolTable,
    b: &mut FunctionBuilder,
    loops: &mut LoopStack,
    ret: FuncType,
) -> (r: Result<(), SemanticError>)
    requires
        *s is If,
        old(table).wf(),
        old(b).inv(),
        old(loops).below(old(b).len()),
    ensures
        check_stmt(*s, old(table).env(), old(loops)@.len() > 0, ret) == r,
        r is Ok ==> settled(
            *old(table),
            *final(table),
            *old(b),
            *final(b),
            *old(loops),
            *final(loops),
        ) && final(b).code() == code_if(
            *s,
            old(table).places(),
            old(loops)@,
            ret,
            old(b).code(),
        ),
    decreases s, 0int,
{
    match s {
        Stmt::If(c, t, e) => {
            let cond = lower_int(c, table, b)?;
            let ghost waiting = b.pending();
            let then_to = b.new_block();
            let end = b.new_block();
            match e {
                None => {
                    b.terminate(Inst::Branch(cond, then_to, end), then_to);
                    proof {
                        assert(b.pending() =~= waiting.insert(end as int));
                    }
                    lower_stmt(t, table, b, loops, ret)?;
                },
                Some(other) => {
                    let else_to = b.new_block();
                    b.terminate(Inst::Branch(cond, then_to, else_to), then_to);
                    proof {
                        assert(b.pending() =~= waiting.insert(end as int).insert(else_to as int));
                    }
                    lower_stmt(t, table, b, loops, ret)?;
                    b.terminate(Inst::Jump(end), else_to);
                    proof {
                        assert(b.pending() =~= waiting.insert(end as int));
                    }
                    lower_stmt(other, table, b, loops, ret)?;
                },
            }
            b.terminate(Inst::Jump(end), end);
            proof {
                assert(b.pending() =~= waiting);
            }
            Ok(())
        },
        _ => unreached(),
    }
}

/// Lowers `while`: a jump to the block of the condition, there a branch
/// on it to the block of the body or of what follows; the body is lowered
/// with this loop as the innermost and ends in a jump to the condition.
fn lower_while(
    s: &Stmt,
    table: &mut SymbolTable,
    b: &mut FunctionBuilder,
    loops: &mut LoopStack,
    ret: FuncType,
) -> (r: Result<(), SemanticError>)
    requires
        *s is While,
        old(table).wf(),
        old(b).inv(),
        old(loops).below(old(b).len()),
    ensures
        check_stmt(*s, old(table).env(), old(loops)@.len() > 0, ret) == r,
        r is Ok ==> settled(
            *old(table),
            *final(table),
            *old(b),
            *final(b),
            *old(loops),
            *final(loops),
        ) && final(b).code() == code_while(
            *s,
            old(table).places(),
            old(loops)@,
            ret,
            old(b).code(),
        ),
    decreases s, 0int,
{
    match s {
        Stmt::While(c, body) => {
            let ghost waiting = b.pending();
            let cond_to = b.new_block();
            let body_to = b.new_block();
            let exit = b.new_block();
            b.terminate(Inst::Jump(cond_to), cond_to);
            proof {
                assert(b.pending() =~= waiting.insert(body_to as int).insert(exit as int));
            }
            let cond = lower_int(c, table, b)?;
            b.terminate(Inst::Branch(cond, body_to, exit), body_to);
            proof {
                assert(b.pending() =~= waiting.insert(exit as int));
            }
            loops.push(LoopTarget { cond: cond_to, exit });
            proof {
                assert(loops@.last() == loop_target(old(b).code()));
            }
            lower_stmt(body, table, b, loops, ret)?;
            loops.pop();
            proof {
                assert(loops@ =~= old(loops)@);
            }
            b.terminate(Inst::Jump(cond_to), exit);
            proof {
                assert(b.pending() =~= waiting);
            }
            Ok(())
        },
        _ => unreached(),
    }
}

/// Lowers a statement inside the enclosing loops, in a function that
/// returns `ret`. It succeeds exactly where the static rules accept the
/// statement, else it fails as they do; the code after it is the code that
/// the statement is lowered to after the code before.
pub fn lower_stmt(
    s: &Stmt,
    table: &mut SymbolTable,
    b: &mut FunctionBuilder,
    loops: &mut LoopStack,
    ret: FuncType,
) -> (r: Result<(), SemanticError>)
    requires
        old(table).wf(),
        old(b).inv(),
        old(loops).below(old(b).len()),
    ensures
        check_stmt(*s, old(table).env(), old(loops)@.len() > 0, ret) == r,
        r is Ok ==> settled(
            *old(table),
            *final(table),
            *old(b),
            *final(b),
            *old(loops),
            *final(loops),
        ) && final(b).code() == code_stmt(
            *s,
            old(table).places(),
            old(loops)@,
            ret,
            old(b).code(),
        ),
    decreases s, 1int,
{
    match s {
        Stmt::Assign(lval, e) => lower_assign(lval, e, table, b),
        Stmt::Exp(None) => Ok(()),
        Stmt::Exp(Some(e)) => {
            lower_exp(e, table, b)?;
            Ok(())
        },
        Stmt::Block(block) => lower_block(block, table, b, loops, ret),
        Stmt::If(_, _, _) => lower_if(s, table, b, loops, ret),
        Stmt::While(_, _) => lower_while(s, table, b, loops, ret),
        Stmt::Break => lower_jump(s, b, loops),
        Stmt::Continue => lower_jump(s, b, loops),
        Stmt::Return(e) => lower_return(e, table, b, ret),
    }
}

/// Lowers a block: its items in order, in a scope of its own.
pub fn lower_block(
    block: &Block,
    table: &mut SymbolTable,
    b: &mut FunctionBuilder,
    loops: &mut LoopStack,
    ret: FuncType,
) -> (r: Result<(), SemanticError>)
    requires
        old(table).wf(),
        old(b).inv(),
        old(loops).below(old(b).len()),
    ensures
        check_block(*block, old(table).env(), old(loops)@.len() > 0, ret) == r,
        r is Ok ==> settled(
            *old(table),
            *final(table),
            *old(b),
            *final(b),
            *old(loops),
            *final(loops),
        ) && final(b).code() == code_block(
            *block,
            old(table).places(),
            old(loops)@,
            ret,
            old(b).code(),
        ),
    decreases block, 1int,
{
    let ghost outer = table.env();
    let ghost outer_places = table.places();
    let ghost in_loop = loops@.len() > 0;
    proof {
        table.lemma_depth();
    }
    table.enter_scope();
    let ghost all = check_items(block.items@, table.env(), in_loop, ret);
    let ghost whole = code_items(block.items@, table.places(), loops@, ret, b.code());
    let mut k: usize = 0;
    proof {
        assert(block.items@.subrange(0, block.items@.len() as int) =~= block.items@);
        assert(table.env().drop_last() =~= outer);
        assert(table.places().drop_last() =~= outer_places);
    }
    while k < block.items.len()
        invariant
            table.wf(),
            k <= block.items@.len(),
            outer == old(table).env(),
            outer_places == old(table).places(),
            outer.len() >= 1,
            outer_places.len() == outer.len(),
            table.env().len() == outer.len() + 1,
            table.env().drop_last() == outer,
            table.places().len() == outer.len() + 1,
            table.places().drop_last() == outer_places,
            grown(*old(b), *b),
            loops@ == old(loops)@,
            loops.below(b.len()),
            in_loop == (loops@.len() > 0),
            all == check_items(block.items@, entered(outer), in_loop, ret),
            all == check_items(
                block.items@.subrange(k as int, block.items@.len() as int),
                table.env(),
                in_loop,
                ret,
            ),
            whole == code_items(
                block.items@,
                entered(outer_places),
                old(loops)@,
                ret,
                old(b).code(),
            ),
            whole == code_items(
                block.items@.subrange(k as int, block.items@.len() as int),
                table.places(),
                loops@,
                ret,
                b.code(),
            ),
        decreases block.items@.len() - k,
    {
        proof {
            let rest = block.items@.subrange(k as int, block.items@.len() as int);
            assert(rest[0] == block.items@[k as int]);
            assert(rest.drop_first() =~= block.items@.subrange(k + 1, block.items@.len() as int));
            if check_item(block.items@[k as int], table.env(), in_loop, ret) is Ok {
                lemma_item_outer(block.items@[k as int], table.env(), in_loop, ret);
            }
        }
        lower_item(&block.items[k], table, b, loops, ret)?;
        k = k + 1;
    }
    table.exit_scope();
    Ok(())
}

fn lower_item(
    item: &BlockItem,
    table: &mut SymbolTable,
    b: &mut FunctionBuilder,
    loops: &mut LoopStack,
    ret: FuncType,
) -> (r: Result<(), SemanticError>)
    requires
        old(table).wf(),
        old(b).inv(),
        old(loops).below(old(b).len()),
    ensures
        check_item(*item, old(table).env(), old(loops)@.len() > 0, ret) == match r {
            Ok(()) => Ok(final(table).env()),
            Err(e) => Err::<Scopes<Sym>, SemanticError>(e),
        },
        r is Ok ==> final(table).wf() && grown(*old(b), *final(b)) && final(loops)@ == old(
            loops,
        )@ && outer_kept(old(table).places(), final(table).places()) && (
            final(b).code(),
            final(table).places(),
        ) == code_item(*item, old(table).places(), old(loops)@, ret, old(b).code()),
    decreases item, 0int,
{
    match item {
        BlockItem::Decl(d) => lower_local_decl(d, table, b),
        BlockItem::Stmt(s) => lower_stmt(s, table, b, loops, ret),
    }
}

} // verus!
