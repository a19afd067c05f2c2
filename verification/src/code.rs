//! What lowering makes of each construct: the code after the construct is
//! lowered, as a function of the construct, the scopes with their places
//! and the code before. It says what is lowered where the static rules
//! accept the construct.

use vstd::prelude::*;
use crate::ast::{
    AddExp, EqExp, Exp, LAndExp, LOrExp, LVal, MulExp, PrimaryExp, RelExp, UnaryExp, UnaryOp,
};
use crate::builder::{emitted, next_value, reserved, terminated, Code};
use crate::consteval::apply;
use crate::ir::{BinOp, Inst, Value};
use crate::scope::{lookup, Placed, Scopes, Sym};
use crate::semantics::rank_of;

verus! {

/// What a binary operation on two values is known to yield at compile
/// time: the outcome where both are constants and it has one.
pub open spec fn folded(op: BinOp, l: Value, r: Value) -> Option<i64> {
    match (l, r) {
        (Value::Const(x), Value::Const(y)) => match apply(op, x, y) {
            Ok(c) => Some(c),
            Err(_) => None,
        },
        _ => None,
    }
}

/// The code and the value of a binary operation on two values: the
/// constant that it is known to yield and no instruction, or else one
/// instruction and its result.
pub open spec fn binary_code(c: Code, op: BinOp, l: Value, r: Value) -> (Code, Value) {
    match folded(op, l, r) {
        Some(k) => (c, Value::Const(k)),
        None => (emitted(c, Inst::Binary(op, l, r)), next_value(c)),
    }
}

/// The code of `l || r` or `l && r` from where `l` is lowered to `left` up
/// to where `r` starts. A cell is reserved and takes what the left side
/// decides (one for `||`, zero for `&&`); two blocks are added, the first
/// for the right side and the second for what follows; the current block
/// ends in a branch on `left` that goes to the block of the right side
/// only where the left side does not decide; that block becomes current.
pub open spec fn branched(c: Code, left: Value, or: bool) -> Code {
    let cell = next_value(c);
    let decided = if or {
        1i64
    } else {
        0i64
    };
    let c1 = emitted(emitted(c, Inst::Alloc(1)), Inst::Store(Value::Const(decided), cell));
    let rhs = c.blocks.len() as usize;
    let end = (c.blocks.len() + 1) as usize;
    let branch = if or {
        Inst::Branch(left, end, rhs)
    } else {
        Inst::Branch(left, rhs, end)
    };
    terminated(reserved(reserved(c1)), branch, c.blocks.len() as int)
}

/// The code and the value of `l || r` or `l && r` from where `r` is
/// lowered to `right`: whether `right` is not zero is stored in the cell,
/// the block ends in a jump to the block for what follows, and there the
/// cell is loaded. `before` is the code where `l` was lowered.
pub open spec fn joined(before: Code, c: Code, right: Value) -> (Code, Value) {
    let cell = next_value(before);
    let end = before.blocks.len() as int + 1;
    let (c1, truth) = binary_code(c, BinOp::Ne, right, Value::Const(0));
    let c2 = terminated(emitted(c1, Inst::Store(truth, cell)), Inst::Jump(end as usize), end);
    (emitted(c2, Inst::Load(cell)), next_value(c2))
}

/// The code and the value of an expression: those of its one form, the
/// logical or.
pub closed spec fn code_exp(e: Exp, env: Scopes<Placed>, c: Code) -> (Code, Value)
    decreases e, 0int,
{
    match e {
        Exp::LOrExp(inner) => code_lor(*inner, env, c),
    }
}

/// An expression is lowered as the logical or that it consists of.
pub proof fn lemma_code_exp(e: Exp, env: Scopes<Placed>, c: Code)
    ensures
        code_exp(e, env, c) == match e {
            Exp::LOrExp(inner) => code_lor(*inner, env, c),
        },
{
}

pub open spec fn code_lor(e: LOrExp, env: Scopes<Placed>, c: Code) -> (Code, Value)
    decreases e, 0int,
{
    match e {
        LOrExp::LAndExp(inner) => code_land(*inner, env, c),
        LOrExp::Or(l, r) => {
            let (c1, left) = code_lor(*l, env, c);
            let (c2, right) = code_land(*r, env, branched(c1, left, true));
            joined(c1, c2, right)
        },
    }
}

pub open spec fn code_land(e: LAndExp, env: Scopes<Placed>, c: Code) -> (Code, Value)
    decreases e, 0int,
{
    match e {
        LAndExp::EqExp(inner) => code_eq(*inner, env, c),
        LAndExp::And(l, r) => {
            let (c1, left) = code_land(*l, env, c);
            let (c2, right) = code_eq(*r, env, branched(c1, left, false));
            joined(c1, c2, right)
        },
    }
}

pub open spec fn code_eq(e: EqExp, env: Scopes<Placed>, c: Code) -> (Code, Value)
    decreases e, 0int,
{
    match e {
        EqExp::RelExp(inner) => code_rel(*inner, env, c),
        EqExp::Eq(l, r) => {
            let (c1, a) = code_eq(*l, env, c);
            let (c2, b) = code_rel(*r, env, c1);
            binary_code(c2, BinOp::Eq, a, b)
        },
        EqExp::Neq(l, r) => {
            let (c1, a) = code_eq(*l, env, c);
            let (c2, b) = code_rel(*r, env, c1);
            binary_code(c2, BinOp::Ne, a, b)
        },
    }
}

/// The operation of a comparison.
pub open spec fn rel_op(e: RelExp) -> BinOp {
    match e {
        RelExp::Gt(_, _) => BinOp::Gt,
        RelExp::Le(_, _) => BinOp::Le,
        RelExp::Ge(_, _) => BinOp::Ge,
        _ => BinOp::Lt,
    }
}

pub open spec fn code_rel(e: RelExp, env: Scopes<Placed>, c: Code) -> (Code, Value)
    decreases e, 0int,
{
    match e {
        RelExp::AddExp(inner) => code_add(*inner, env, c),
        RelExp::Lt(l, r) | RelExp::Gt(l, r) | RelExp::Le(l, r) | RelExp::Ge(l, r) => {
            let (c1, a) = code_rel(*l, env, c);
            let (c2, b) = code_add(*r, env, c1);
            binary_code(c2, rel_op(e), a, b)
        },
    }
}

pub open spec fn code_add(e: AddExp, env: Scopes<Placed>, c: Code) -> (Code, Value)
    decreases e, 0int,
{
    match e {
        AddExp::MulExp(inner) => code_mul(*inner, env, c),
        AddExp::Add(l, r) => {
            let (c1, a) = code_add(*l, env, c);
            let (c2, b) = code_mul(*r, env, c1);
            binary_code(c2, BinOp::Add, a, b)
        },
        AddExp::Sub(l, r) => {
            let (c1, a) = code_add(*l, env, c);
            let (c2, b) = code_mul(*r, env, c1);
            binary_code(c2, BinOp::Sub, a, b)
        },
    }
}

/// The operation of a product.
pub open spec fn mul_op(e: MulExp) -> BinOp {
    match e {
        MulExp::Div(_, _) => BinOp::Div,
        MulExp::Mod(_, _) => BinOp::Mod,
        _ => BinOp::Mul,
    }
}

pub open spec fn code_mul(e: MulExp, env: Scopes<Placed>, c: Code) -> (Code, Value)
    decreases e, 0int,
{
    match e {
        MulExp::UnaryExp(inner) => code_unary(*inner, env, c),
        MulExp::Mul(l, r) | MulExp::Div(l, r) | MulExp::Mod(l, r) => {
            let (c1, a) = code_mul(*l, env, c);
            let (c2, b) = code_unary(*r, env, c1);
            binary_code(c2, mul_op(e), a, b)
        },
    }
}

/// A sign is lowered as a difference from zero, `!` as a comparison with
/// zero, and `+` not at all.
pub open spec fn code_unary(e: UnaryExp, env: Scopes<Placed>, c: Code) -> (Code, Value)
    decreases e, 0int,
{
    match e {
        UnaryExp::PrimaryExp(inner) => code_primary(*inner, env, c),
        UnaryExp::Call(name, args) => code_call(name, args@, env, c),
        UnaryExp::UnaryOp(op, inner) => {
            let (c1, v) = code_unary(*inner, env, c);
            match op {
                UnaryOp::Add => (c1, v),
                UnaryOp::Sub => binary_code(c1, BinOp::Sub, Value::Const(0), v),
                UnaryOp::Not => binary_code(c1, BinOp::Eq, v, Value::Const(0)),
            }
        },
    }
}

/// A number is its constant and no instruction. A name with indices is
/// its place; where that is a cell in memory, the cell is loaded.
pub open spec fn code_primary(e: PrimaryExp, env: Scopes<Placed>, c: Code) -> (Code, Value)
    decreases e, 0int,
{
    match e {
        PrimaryExp::Paren(inner) => code_exp(*inner, env, c),
        PrimaryExp::LVal(lval) => {
            let (c1, place, cell) = code_place(lval, env, c);
            if cell {
                (emitted(c1, Inst::Load(place)), next_value(c1))
            } else {
                (c1, place)
            }
        },
        PrimaryExp::Number(n) => (c, Value::Const(n)),
    }
}

/// The code and the place of a name with indices, and whether the place
/// is a cell in memory. A constant number is its value. An array or a
/// variable starts where it is stored; an array parameter starts where the
/// pointer that is stored for it points, which is loaded first. From there
/// each index steps as far as its stride says.
pub open spec fn code_place(lval: LVal, env: Scopes<Placed>, c: Code) -> (Code, Value, bool)
    decreases lval, 1int,
{
    match lookup(env, lval.ident@) {
        Some(p) => {
            let whole = rank_of(p.sym) == Some(lval.indices@.len() as int);
            match p.sym {
                Sym::Const(_) => (c, p.slot, false),
                Sym::Func(_, _) => (c, p.slot, false),
                Sym::Ptr(_) => {
                    let (c1, at) = code_indices(
                        lval.indices@,
                        p.strides,
                        0,
                        next_value(c),
                        env,
                        emitted(c, Inst::Load(p.slot)),
                    );
                    (c1, at, whole)
                },
                _ => {
                    let (c1, at) = code_indices(lval.indices@, p.strides, 0, p.slot, env, c);
                    (c1, at, whole)
                },
            }
        },
        None => (c, Value::Const(0), false),
    }
}

/// The stride of index `k`, one where none is known.
pub open spec fn stride_at(strides: Seq<i64>, k: int) -> i64 {
    if 0 <= k < strides.len() {
        strides[k]
    } else {
        1
    }
}

/// The code and the address after stepping from `base` along the indices,
/// the first of which is index `k` of the array: each index is lowered and
/// then steps by its stride.
pub open spec fn code_indices(
    es: Seq<Exp>,
    strides: Seq<i64>,
    k: int,
    base: Value,
    env: Scopes<Placed>,
    c: Code,
) -> (Code, Value)
    decreases es, 0int,
{
    if es.len() == 0 {
        (c, base)
    } else {
        let (c1, index) = code_exp(es[0], env, c);
        code_indices(
            es.drop_first(),
            strides,
            k + 1,
            next_value(c1),
            env,
            emitted(c1, Inst::Offset(base, index, stride_at(strides, k))),
        )
    }
}

/// The code and the value of a call: each argument is lowered and handed
/// over, in order; then comes the call.
pub open spec fn code_call(name: String, args: Seq<Exp>, env: Scopes<Placed>, c: Code) -> (
    Code,
    Value,
)
    decreases args, 1int,
{
    let c1 = code_args(args, env, c);
    (emitted(c1, Inst::Call(name, args.len() as usize)), next_value(c1))
}

/// The code after the arguments are lowered and handed over.
pub open spec fn code_args(args: Seq<Exp>, env: Scopes<Placed>, c: Code) -> Code
    decreases args, 0int,
{
    if args.len() == 0 {
        c
    } else {
        let (c1, v) = code_exp(args[0], env, c);
        code_args(args.drop_first(), env, emitted(c1, Inst::Arg(v)))
    }
}

} // verus!
