//! What lowering makes of statements, initializers and local declarations.

use vstd::prelude::*;
use crate::ast::{Block, BlockItem, ConstDef, Decl, Exp, FuncType, InitVal, LVal, Stmt, VarDef};
use crate::builder::{emitted, next_value, reserved, terminated, Code};
use crate::code::{code_exp, code_place};
use crate::ir::{Inst, Value};
use crate::loops::LoopTarget;
use crate::scope::{declared, entered, syms_of, Placed, Scopes, Sym};
use crate::semantics::{cells, const_dims, const_fill, stride, var_dims, var_name};

verus! {

/// The code after `v` is stored in the cell that lies `at` cells after
/// `slot`: the address of the cell is computed, and `v` is stored there.
pub open spec fn stored(c: Code, slot: Value, at: i64, v: Value) -> Code {
    emitted(emitted(c, Inst::Offset(slot, Value::Const(at), 1)), Inst::Store(v, next_value(c)))
}

/// The code after zero is stored in the cells from `from` up to `to` after
/// `slot`, one cell after the other.
pub open spec fn zeroed(c: Code, slot: Value, from: i64, to: i64) -> Code
    decreases to - from,
{
    if to <= from {
        c
    } else {
        stored(zeroed(c, slot, from, (to - 1) as i64), slot, (to - 1) as i64, Value::Const(0))
    }
}

/// The code after the first `n` of the constants are stored in the cells
/// after `slot`, one cell after the other.
pub open spec fn constants_stored(c: Code, slot: Value, values: Seq<i64>, n: int) -> Code
    decreases n,
{
    if n <= 0 || n > values.len() {
        c
    } else {
        stored(
            constants_stored(c, slot, values, n - 1),
            slot,
            (n - 1) as i64,
            Value::Const(values[n - 1]),
        )
    }
}

/// The strides of an array with the dimensions, index by index.
pub open spec fn strides_seq(dims: Seq<i64>) -> Seq<i64> {
    Seq::new(dims.len(), |k: int| stride(dims, k) as i64)
}

/// The code after the initializer of a local variable has given its
/// values to the part of the array with the dimensions `dims` that starts
/// `at` cells after `slot`. An expression is lowered and stored in the
/// cell. Of a list, each item fills its part, one part after the other,
/// and the cells that no item reaches get zero.
pub open spec fn code_fill(
    init: InitVal,
    dims: Seq<i64>,
    at: int,
    slot: Value,
    env: Scopes<Placed>,
    c: Code,
) -> Code
    decreases init, 1int,
{
    match init {
        InitVal::Exp(e) => {
            let (c1, v) = code_exp(*e, env, c);
            stored(c1, slot, at as i64, v)
        },
        InitVal::Array(items) => {
            let part = dims.drop_first();
            let c1 = code_fill_list(items@, part, at, slot, env, c);
            zeroed(c1, slot, (at + items@.len() * cells(part)) as i64, (at + cells(dims)) as i64)
        },
    }
}

pub open spec fn code_fill_list(
    items: Seq<InitVal>,
    dims: Seq<i64>,
    at: int,
    slot: Value,
    env: Scopes<Placed>,
    c: Code,
) -> Code
    decreases items, 0int,
{
    if items.len() == 0 {
        c
    } else {
        code_fill_list(
            items.drop_first(),
            dims,
            at + cells(dims),
            slot,
            env,
            code_fill(items[0], dims, at, slot, env, c),
        )
    }
}

/// The code after a jump to `to`; what follows starts a block of its own.
pub open spec fn jumped(c: Code, to: usize) -> Code {
    terminated(reserved(c), Inst::Jump(to), c.blocks.len() as int)
}

/// The code and the value of what a `return` returns: the value given; or
/// zero where none is given in a function that returns a number.
pub open spec fn code_returned(x: Option<Exp>, env: Scopes<Placed>, ret: FuncType, c: Code) -> (
    Code,
    Option<Value>,
) {
    match x {
        Some(e) => {
            let (c1, v) = code_exp(e, env, c);
            (c1, Some(v))
        },
        None => match ret {
            FuncType::Int => (c, Some(Value::Const(0))),
            FuncType::Void => (c, None),
        },
    }
}

/// The code after an assignment: the place of the left side is found,
/// the right side is lowered, and its value is stored in the place.
pub open spec fn code_assign(lval: LVal, e: Exp, env: Scopes<Placed>, c: Code) -> Code {
    let (c1, place, _) = code_place(lval, env, c);
    let (c2, v) = code_exp(e, env, c1);
    emitted(c2, Inst::Store(v, place))
}

/// The code after a `return`: what is returned is lowered, and the block
/// ends in the return; what follows starts a block of its own.
pub open spec fn code_return(x: Option<Exp>, env: Scopes<Placed>, ret: FuncType, c: Code) -> Code {
    let (c1, value) = code_returned(x, env, ret, c);
    terminated(reserved(c1), Inst::Return(value), c1.blocks.len() as int)
}

/// The code after `if` with its branches. Three blocks are added where
/// there is an `else`, two where there is none: for the first branch, for
/// what follows, and for the second branch. The block of the condition
/// ends in a branch on it to the first branch, or else to the second
/// branch or to what follows; each branch ends in a jump to what follows.
pub open spec fn code_if(
    s: Stmt,
    env: Scopes<Placed>,
    loops: Seq<LoopTarget>,
    ret: FuncType,
    c: Code,
) -> Code
    decreases s, 0int,
{
    match s {
        Stmt::If(cond, then, other) => {
            let (c1, v) = code_exp(cond, env, c);
            let then_to = c1.blocks.len() as usize;
            let end = (c1.blocks.len() + 1) as usize;
            match other {
                None => {
                    let c2 = terminated(
                        reserved(reserved(c1)),
                        Inst::Branch(v, then_to, end),
                        then_to as int,
                    );
                    terminated(code_stmt(*then, env, loops, ret, c2), Inst::Jump(end), end as int)
                },
                Some(other) => {
                    let else_to = (c1.blocks.len() + 2) as usize;
                    let c2 = terminated(
                        reserved(reserved(reserved(c1))),
                        Inst::Branch(v, then_to, else_to),
                        then_to as int,
                    );
                    let c3 = terminated(
                        code_stmt(*then, env, loops, ret, c2),
                        Inst::Jump(end),
                        else_to as int,
                    );
                    terminated(
                        code_stmt(*other, env, loops, ret, c3),
                        Inst::Jump(end),
                        end as int,
                    )
                },
            }
        },
        _ => c,
    }
}

/// The targets of a loop that is entered where the code has so many
/// blocks: the first new block tests the condition, the third follows the
/// loop.
pub open spec fn loop_target(c: Code) -> LoopTarget {
    LoopTarget { cond: c.blocks.len() as usize, exit: (c.blocks.len() + 2) as usize }
}

/// The code after `while`. Three blocks are added: for the condition, for
/// the body, and for what follows. The current block ends in a jump to the
/// condition; the block of the condition ends in a branch on it to the
/// body or to what follows; the body is lowered with this loop as the
/// innermost and ends in a jump to the condition.
pub open spec fn code_while(
    s: Stmt,
    env: Scopes<Placed>,
    loops: Seq<LoopTarget>,
    ret: FuncType,
    c: Code,
) -> Code
    decreases s, 0int,
{
    match s {
        Stmt::While(cond, body) => {
            let target = loop_target(c);
            let body_to = (c.blocks.len() + 1) as usize;
            let c1 = terminated(
                reserved(reserved(reserved(c))),
                Inst::Jump(target.cond),
                target.cond as int,
            );
            let (c2, v) = code_exp(cond, env, c1);
            let c3 = terminated(c2, Inst::Branch(v, body_to, target.exit), body_to as int);
            let c4 = code_stmt(*body, env, loops.push(target), ret, c3);
            terminated(c4, Inst::Jump(target.cond), target.exit as int)
        },
        _ => c,
    }
}

/// The code after a statement, lowered inside the loops `loops`, the
/// innermost last, in a function that returns `ret`.
pub open spec fn code_stmt(
    s: Stmt,
    env: Scopes<Placed>,
    loops: Seq<LoopTarget>,
    ret: FuncType,
    c: Code,
) -> Code
    decreases s, 1int,
{
    match s {
        Stmt::Assign(lval, e) => code_assign(lval, e, env, c),
        Stmt::Exp(None) => c,
        Stmt::Exp(Some(e)) => code_exp(e, env, c).0,
        Stmt::Block(b) => code_block(b, env, loops, ret, c),
        Stmt::If(_, _, _) => code_if(s, env, loops, ret, c),
        Stmt::While(_, _) => code_while(s, env, loops, ret, c),
        Stmt::Break => jumped(c, loops.last().exit),
        Stmt::Continue => jumped(c, loops.last().cond),
        Stmt::Return(x) => code_return(x, env, ret, c),
    }
}

/// The code after a block: its items in order, in a scope of its own.
pub open spec fn code_block(
    b: Block,
    env: Scopes<Placed>,
    loops: Seq<LoopTarget>,
    ret: FuncType,
    c: Code,
) -> Code
    decreases b, 0int,
{
    code_items(b.items@, entered(env), loops, ret, c)
}

pub open spec fn code_items(
    items: Seq<BlockItem>,
    env: Scopes<Placed>,
    loops: Seq<LoopTarget>,
    ret: FuncType,
    c: Code,
) -> Code
    decreases items, 1int,
{
    if items.len() == 0 {
        c
    } else {
        let (c1, after) = code_item(items[0], env, loops, ret, c);
        code_items(items.drop_first(), after, loops, ret, c1)
    }
}

/// The code and the scopes after an item of a block.
pub open spec fn code_item(
    item: BlockItem,
    env: Scopes<Placed>,
    loops: Seq<LoopTarget>,
    ret: FuncType,
    c: Code,
) -> (Code, Scopes<Placed>)
    decreases item, 0int,
{
    match item {
        BlockItem::Decl(d) => code_local_decl(*d, env, c),
        BlockItem::Stmt(s) => (code_stmt(*s, env, loops, ret, c), env),
    }
}

/// The code and the scopes after a local variable is defined: its cells
/// are reserved, its initializer gives them their values, and its name
/// stands for the cells with their strides.
pub open spec fn code_local_var(d: VarDef, env: Scopes<Placed>, c: Code) -> (Code, Scopes<Placed>) {
    let dims = const_dims(var_dims(d), syms_of(env))->Ok_0;
    let slot = next_value(c);
    let c1 = emitted(c, Inst::Alloc(cells(dims) as i64));
    let c2 = match d {
        VarDef::Uninit(_, _) => c1,
        VarDef::Init(_, _, init) => code_fill(init, dims, 0, slot, env, c1),
    };
    let placed = Placed { sym: Sym::Var(dims), slot, strides: strides_seq(dims) };
    (c2, declared(env, var_name(d), placed)->Ok_0)
}

pub open spec fn code_local_vars(ds: Seq<VarDef>, env: Scopes<Placed>, c: Code) -> (
    Code,
    Scopes<Placed>,
)
    decreases ds.len(),
{
    if ds.len() == 0 {
        (c, env)
    } else {
        let (c1, after) = code_local_var(ds[0], env, c);
        code_local_vars(ds.drop_first(), after, c1)
    }
}

/// The code and the scopes after a local constant is defined. A number
/// takes no memory: its name stands for its value. For an array, cells are
/// reserved and take its elements, and its name stands for the cells with
/// their strides.
pub open spec fn code_local_const(d: ConstDef, env: Scopes<Placed>, c: Code) -> (
    Code,
    Scopes<Placed>,
) {
    let dims = const_dims(d.dimensions@, syms_of(env))->Ok_0;
    let values = const_fill(Seq::empty(), d.init_val, dims, syms_of(env))->Ok_0;
    if dims.len() == 0 {
        let placed = Placed {
            sym: Sym::Const(values[0]),
            slot: Value::Const(values[0]),
            strides: Seq::empty(),
        };
        (c, declared(env, d.ident@, placed)->Ok_0)
    } else {
        let slot = next_value(c);
        let c1 = emitted(c, Inst::Alloc(cells(dims) as i64));
        let c2 = constants_stored(c1, slot, values, values.len() as int);
        let placed = Placed { sym: Sym::ConstArray(dims, values), slot, strides: strides_seq(dims) };
        (c2, declared(env, d.ident@, placed)->Ok_0)
    }
}

pub open spec fn code_local_consts(ds: Seq<ConstDef>, env: Scopes<Placed>, c: Code) -> (
    Code,
    Scopes<Placed>,
)
    decreases ds.len(),
{
    if ds.len() == 0 {
        (c, env)
    } else {
        let (c1, after) = code_local_const(ds[0], env, c);
        code_local_consts(ds.drop_first(), after, c1)
    }
}

/// The code and the scopes after a local declaration.
pub open spec fn code_local_decl(d: Decl, env: Scopes<Placed>, c: Code) -> (Code, Scopes<Placed>) {
    match d {
        Decl::ConstDecl(cd) => code_local_consts(cd.const_defs@, env, c),
        Decl::VarDecl(v) => code_local_vars(v.var_defs@, env, c),
    }
}

} // verus!
