//! Laws of control flow in lowered code: which blocks the lowering of an
//! expression touches, where the right side of `&&` and `||` is placed, and
//! which loop `break` and `continue` leave or repeat.

use vstd::prelude::*;
use crate::ast::{
    AddExp, EqExp, Exp, FuncType, LAndExp, LOrExp, LVal, MulExp, PrimaryExp, RelExp, Stmt,
    UnaryExp, UnaryOp,
};
use crate::builder::{emitted, next_value, reserved, terminated, Code};
use crate::code::{
    binary_code, branched, code_add, code_args, code_call, code_eq, code_exp, code_indices,
    code_land, code_lor, code_mul, code_place, code_primary, code_rel, code_unary, joined,
    lemma_code_exp, mul_op, rel_op, stride_at,
};
use crate::code_stmt::{code_stmt, jumped, loop_target};
use crate::ir::{BinOp, Inst, Value};
use crate::loops::LoopTarget;
use crate::scope::{lookup, Placed, Scopes, Sym};

verus! {

/// Whether the current block of `c` is one of its blocks.
pub open spec fn in_block(c: Code) -> bool {
    0 <= c.cur < c.blocks.len()
}

/// Whether `d` is `c` with more in the block that was current and in blocks
/// that are new: every other block of `c` is in `d` as it was, and the
/// current block of `d` is that of `c` or a new one.
pub open spec fn grows(c: Code, d: Code) -> bool {
    &&& in_block(d)
    &&& d.blocks.len() >= c.blocks.len()
    &&& (d.cur == c.cur || d.cur >= c.blocks.len())
    &&& forall|i: int|
        0 <= i < c.blocks.len() && i != c.cur ==> #[trigger] d.blocks[i] == c.blocks[i]
}

/// The branch that ends the left side of `||` or `&&`: to the block `rhs`
/// of the right side where the left side does not decide, and past it to
/// the block after `rhs` where it does.
pub open spec fn deciding_branch(left: Value, or: bool, rhs: int) -> Inst {
    if or {
        Inst::Branch(left, (rhs + 1) as usize, rhs as usize)
    } else {
        Inst::Branch(left, rhs as usize, (rhs + 1) as usize)
    }
}

/// Growth goes on: what grows from grown code grows from the code before.
pub proof fn lemma_grows_on(a: Code, b: Code, c: Code)
    requires
        grows(a, b),
        grows(b, c),
    ensures
        grows(a, c),
{
    assert forall|i: int| 0 <= i < a.blocks.len() && i != a.cur implies #[trigger] c.blocks[i]
        == a.blocks[i] by {
        assert(b.blocks[i] == a.blocks[i]);
    }
}

/// An instruction more in the current block is growth.
pub proof fn lemma_grows_emitted(c: Code, inst: Inst)
    requires
        in_block(c),
    ensures
        grows(c, emitted(c, inst)),
{
}

/// A binary operation is growth, folded or not.
pub proof fn lemma_grows_binary(c: Code, op: BinOp, l: Value, r: Value)
    requires
        in_block(c),
    ensures
        grows(c, binary_code(c, op, l, r).0),
{
}

/// Where the left side of `||` or `&&` ends: its block ends in the deciding
/// branch, two empty blocks are new, and the first of them is current.
pub proof fn lemma_branched(c: Code, left: Value, or: bool)
    requires
        in_block(c),
    ensures
        grows(c, branched(c, left, or)),
        branched(c, left, or).cur == c.blocks.len(),
        branched(c, left, or).blocks.len() == c.blocks.len() + 2,
        branched(c, left, or).blocks[c.blocks.len() as int] == Seq::<Inst>::empty(),
        branched(c, left, or).blocks[c.blocks.len() as int + 1] == Seq::<Inst>::empty(),
        branched(c, left, or).blocks[c.cur].last() == deciding_branch(
            left,
            or,
            c.blocks.len() as int,
        ),
{
}

/// Where the right side of `||` or `&&` ends: its block and the block for
/// what follows get more, and no other block changes.
pub proof fn lemma_joined(before: Code, c: Code, right: Value)
    requires
        in_block(c),
        before.blocks.len() + 1 < c.blocks.len(),
        c.cur != before.blocks.len() + 1,
    ensures
        in_block(joined(before, c, right).0),
        joined(before, c, right).0.cur == before.blocks.len() + 1,
        joined(before, c, right).0.blocks.len() == c.blocks.len(),
        forall|i: int|
            0 <= i < c.blocks.len() && i != c.cur && i != before.blocks.len() + 1 ==> #[trigger] joined(
                before,
                c,
                right,
            ).0.blocks[i] == c.blocks[i],
{
}

/// Lowering an expression is growth.
pub proof fn lemma_grows_exp(e: Exp, env: Scopes<Placed>, c: Code)
    requires
        in_block(c),
    ensures
        grows(c, code_exp(e, env, c).0),
    decreases e, 1int,
{
    lemma_code_exp(e, env, c);
    match e {
        Exp::LOrExp(inner) => lemma_grows_lor(*inner, env, c),
    }
}

/// Lowering `l || r` or `l && r` from the two sides is growth.
pub proof fn lemma_grows_circuit(c: Code, c1: Code, left: Value, or: bool, c2: Code, right: Value)
    requires
        in_block(c),
        grows(c, c1),
        grows(branched(c1, left, or), c2),
    ensures
        grows(c, joined(c1, c2, right).0),
{
    let b = branched(c1, left, or);
    let whole = joined(c1, c2, right).0;
    lemma_branched(c1, left, or);
    lemma_joined(c1, c2, right);
    assert forall|i: int| 0 <= i < c.blocks.len() && i != c.cur implies #[trigger] whole.blocks[i]
        == c.blocks[i] by {
        assert(c1.blocks[i] == c.blocks[i]);
        assert(b.blocks[i] == c1.blocks[i]);
        assert(c2.blocks[i] == b.blocks[i]);
    }
}

pub proof fn lemma_grows_lor(e: LOrExp, env: Scopes<Placed>, c: Code)
    requires
        in_block(c),
    ensures
        grows(c, code_lor(e, env, c).0),
    decreases e, 0int,
{
    match e {
        LOrExp::LAndExp(inner) => lemma_grows_land(*inner, env, c),
        LOrExp::Or(l, r) => {
            let (c1, left) = code_lor(*l, env, c);
            lemma_grows_lor(*l, env, c);
            lemma_grows_land(*r, env, branched(c1, left, true));
            let (c2, right) = code_land(*r, env, branched(c1, left, true));
            lemma_grows_circuit(c, c1, left, true, c2, right);
        },
    }
}

pub proof fn lemma_grows_land(e: LAndExp, env: Scopes<Placed>, c: Code)
    requires
        in_block(c),
    ensures
        grows(c, code_land(e, env, c).0),
    decreases e, 0int,
{
    match e {
        LAndExp::EqExp(inner) => lemma_grows_eq(*inner, env, c),
        LAndExp::And(l, r) => {
            let (c1, left) = code_land(*l, env, c);
            lemma_grows_land(*l, env, c);
            lemma_grows_eq(*r, env, branched(c1, left, false));
            let (c2, right) = code_eq(*r, env, branched(c1, left, false));
            lemma_grows_circuit(c, c1, left, false, c2, right);
        },
    }
}

pub proof fn lemma_grows_eq(e: EqExp, env: Scopes<Placed>, c: Code)
    requires
        in_block(c),
    ensures
        grows(c, code_eq(e, env, c).0),
    decreases e, 0int,
{
    match e {
        EqExp::RelExp(inner) => lemma_grows_rel(*inner, env, c),
        EqExp::Eq(l, r) | EqExp::Neq(l, r) => {
            let (c1, a) = code_eq(*l, env, c);
            let (c2, b) = code_rel(*r, env, c1);
            lemma_grows_eq(*l, env, c);
            lemma_grows_rel(*r, env, c1);
            let op = if e is Eq {
                BinOp::Eq
            } else {
                BinOp::Ne
            };
            lemma_grows_binary(c2, op, a, b);
            lemma_grows_on(c, c1, c2);
            lemma_grows_on(c, c2, binary_code(c2, op, a, b).0);
        },
    }
}

pub proof fn lemma_grows_rel(e: RelExp, env: Scopes<Placed>, c: Code)
    requires
        in_block(c),
    ensures
        grows(c, code_rel(e, env, c).0),
    decreases e, 0int,
{
    match e {
        RelExp::AddExp(inner) => lemma_grows_add(*inner, env, c),
        RelExp::Lt(l, r) | RelExp::Gt(l, r) | RelExp::Le(l, r) | RelExp::Ge(l, r) => {
            let (c1, a) = code_rel(*l, env, c);
            let (c2, b) = code_add(*r, env, c1);
            lemma_grows_rel(*l, env, c);
            lemma_grows_add(*r, env, c1);
            lemma_grows_binary(c2, rel_op(e), a, b);
            lemma_grows_on(c, c1, c2);
            lemma_grows_on(c, c2, binary_code(c2, rel_op(e), a, b).0);
        },
    }
}

pub proof fn lemma_grows_add(e: AddExp, env: Scopes<Placed>, c: Code)
    requires
        in_block(c),
    ensures
        grows(c, code_add(e, env, c).0),
    decreases e, 0int,
{
    match e {
        AddExp::MulExp(inner) => lemma_grows_mul(*inner, env, c),
        AddExp::Add(l, r) | AddExp::Sub(l, r) => {
            let (c1, a) = code_add(*l, env, c);
            let (c2, b) = code_mul(*r, env, c1);
            lemma_grows_add(*l, env, c);
            lemma_grows_mul(*r, env, c1);
            let op = if e is Add {
                BinOp::Add
            } else {
                BinOp::Sub
            };
            lemma_grows_binary(c2, op, a, b);
            lemma_grows_on(c, c1, c2);
            lemma_grows_on(c, c2, binary_code(c2, op, a, b).0);
        },
    }
}

pub proof fn lemma_grows_mul(e: MulExp, env: Scopes<Placed>, c: Code)
    requires
        in_block(c),
    ensures
        grows(c, code_mul(e, env, c).0),
    decreases e, 0int,
{
    match e {
        MulExp::UnaryExp(inner) => lemma_grows_unary(*inner, env, c),
        MulExp::Mul(l, r) | MulExp::Div(l, r) | MulExp::Mod(l, r) => {
            let (c1, a) = code_mul(*l, env, c);
            let (c2, b) = code_unary(*r, env, c1);
            lemma_grows_mul(*l, env, c);
            lemma_grows_unary(*r, env, c1);
            lemma_grows_binary(c2, mul_op(e), a, b);
            lemma_grows_on(c, c1, c2);
            lemma_grows_on(c, c2, binary_code(c2, mul_op(e), a, b).0);
        },
    }
}

pub proof fn lemma_grows_unary(e: UnaryExp, env: Scopes<Placed>, c: Code)
    requires
        in_block(c),
    ensures
        grows(c, code_unary(e, env, c).0),
    decreases e, 0int,
{
    match e {
        UnaryExp::PrimaryExp(inner) => lemma_grows_primary(*inner, env, c),
        UnaryExp::Call(name, args) => {
            lemma_grows_args(args@, env, c);
            let c1 = code_args(args@, env, c);
            lemma_grows_emitted(c1, Inst::Call(name, args@.len() as usize));
            lemma_grows_on(c, c1, code_call(name, args@, env, c).0);
        },
        UnaryExp::UnaryOp(op, inner) => {
            let (c1, v) = code_unary(*inner, env, c);
            lemma_grows_unary(*inner, env, c);
            match op {
                UnaryOp::Add => {},
                UnaryOp::Sub => {
                    lemma_grows_binary(c1, BinOp::Sub, Value::Const(0), v);
                    lemma_grows_on(c, c1, binary_code(c1, BinOp::Sub, Value::Const(0), v).0);
                },
                UnaryOp::Not => {
                    lemma_grows_binary(c1, BinOp::Eq, v, Value::Const(0));
                    lemma_grows_on(c, c1, binary_code(c1, BinOp::Eq, v, Value::Const(0)).0);
                },
            }
        },
    }
}

pub proof fn lemma_grows_primary(e: PrimaryExp, env: Scopes<Placed>, c: Code)
    requires
        in_block(c),
    ensures
        grows(c, code_primary(e, env, c).0),
    decreases e, 0int,
{
    match e {
        PrimaryExp::Paren(inner) => lemma_grows_exp(*inner, env, c),
        PrimaryExp::LVal(lval) => {
            lemma_grows_place(lval, env, c);
            let (c1, place, cell) = code_place(lval, env, c);
            if cell {
                lemma_grows_emitted(c1, Inst::Load(place));
                lemma_grows_on(c, c1, emitted(c1, Inst::Load(place)));
            }
        },
        PrimaryExp::Number(_) => {},
    }
}

/// Locating a name with indices is growth.
pub proof fn lemma_grows_place(lval: LVal, env: Scopes<Placed>, c: Code)
    requires
        in_block(c),
    ensures
        grows(c, code_place(lval, env, c).0),
    decreases lval, 1int,
{
    match lookup(env, lval.ident@) {
        Some(p) => match p.sym {
            Sym::Const(_) => {},
            Sym::Func(_, _) => {},
            Sym::Ptr(_) => {
                let c1 = emitted(c, Inst::Load(p.slot));
                lemma_grows_indices(lval.indices@, p.strides, 0, next_value(c), env, c1);
                lemma_grows_on(c, c1, code_place(lval, env, c).0);
            },
            _ => {
                lemma_grows_indices(lval.indices@, p.strides, 0, p.slot, env, c);
            },
        },
        None => {},
    }
}

pub proof fn lemma_grows_indices(
    es: Seq<Exp>,
    strides: Seq<i64>,
    k: int,
    base: Value,
    env: Scopes<Placed>,
    c: Code,
)
    requires
        in_block(c),
    ensures
        grows(c, code_indices(es, strides, k, base, env, c).0),
    decreases es, 0int,
{
    if es.len() > 0 {
        let (c1, index) = code_exp(es[0], env, c);
        lemma_grows_exp(es[0], env, c);
        let c2 = emitted(c1, Inst::Offset(base, index, stride_at(strides, k)));
        lemma_grows_on(c, c1, c2);
        lemma_grows_indices(es.drop_first(), strides, k + 1, next_value(c1), env, c2);
        lemma_grows_on(c, c2, code_indices(es, strides, k, base, env, c).0);
    }
}

pub proof fn lemma_grows_args(args: Seq<Exp>, env: Scopes<Placed>, c: Code)
    requires
        in_block(c),
    ensures
        grows(c, code_args(args, env, c)),
    decreases args, 0int,
{
    if args.len() > 0 {
        let (c1, v) = code_exp(args[0], env, c);
        lemma_grows_exp(args[0], env, c);
        let c2 = emitted(c1, Inst::Arg(v));
        lemma_grows_on(c, c1, c2);
        lemma_grows_args(args.drop_first(), env, c2);
        lemma_grows_on(c, c2, code_args(args, env, c));
    }
}

/// Short circuit of `&&`. The block in which the left side ends is closed
/// by a branch on the left side's value: to a new block where it is not
/// zero, past it where it is zero. The right side is lowered from that new
/// block on and changes no block that was there before, so that its
/// instructions, and the calls among them, are reached only through the
/// first edge of the branch.
pub proof fn lemma_and_short_circuit(l: LAndExp, r: EqExp, env: Scopes<Placed>, c: Code)
    requires
        in_block(c),
    ensures
        ({
            let (c1, left) = code_land(l, env, c);
            let start = branched(c1, left, false);
            let (c2, right) = code_eq(r, env, start);
            let whole = code_land(LAndExp::And(Box::new(l), Box::new(r)), env, c);
            let rhs = c1.blocks.len() as int;
            &&& whole == joined(c1, c2, right)
            &&& start.cur == rhs
            &&& start.blocks[rhs] == Seq::<Inst>::empty()
            &&& forall|i: int| 0 <= i < rhs ==> #[trigger] c2.blocks[i] == start.blocks[i]
            &&& whole.0.blocks[c1.cur].last() == Inst::Branch(left, rhs as usize, (rhs + 1) as usize)
        }),
{
    let (c1, left) = code_land(l, env, c);
    let start = branched(c1, left, false);
    let (c2, right) = code_eq(r, env, start);
    lemma_grows_land(l, env, c);
    lemma_branched(c1, left, false);
    lemma_grows_eq(r, env, start);
    lemma_joined(c1, c2, right);
    assert(c2.blocks[c1.cur] == start.blocks[c1.cur]);
}

/// Short circuit of `||`. The block in which the left side ends is closed
/// by a branch on the left side's value: past a new block where it is not
/// zero, to that block where it is zero. The right side is lowered from
/// that new block on and changes no block that was there before, so that
/// its instructions, and the calls among them, are reached only through
/// the second edge of the branch.
pub proof fn lemma_or_short_circuit(l: LOrExp, r: LAndExp, env: Scopes<Placed>, c: Code)
    requires
        in_block(c),
    ensures
        ({
            let (c1, left) = code_lor(l, env, c);
            let start = branched(c1, left, true);
            let (c2, right) = code_land(r, env, start);
            let whole = code_lor(LOrExp::Or(Box::new(l), Box::new(r)), env, c);
            let rhs = c1.blocks.len() as int;
            &&& whole == joined(c1, c2, right)
            &&& start.cur == rhs
            &&& start.blocks[rhs] == Seq::<Inst>::empty()
            &&& forall|i: int| 0 <= i < rhs ==> #[trigger] c2.blocks[i] == start.blocks[i]
            &&& whole.0.blocks[c1.cur].last() == Inst::Branch(left, (rhs + 1) as usize, rhs as usize)
        }),
{
    let (c1, left) = code_lor(l, env, c);
    let start = branched(c1, left, true);
    let (c2, right) = code_land(r, env, start);
    lemma_grows_lor(l, env, c);
    lemma_branched(c1, left, true);
    lemma_grows_land(r, env, start);
    lemma_joined(c1, c2, right);
    assert(c2.blocks[c1.cur] == start.blocks[c1.cur]);
}

/// `break` and `continue` bind to the innermost loop. The body of a
/// `while` is lowered with the loop's own targets last among the enclosing
/// loops; and whatever loops enclose a statement, `break` jumps to the
/// exit of the last of them and `continue` to its condition.
pub proof fn lemma_innermost_loop(
    s: Stmt,
    env: Scopes<Placed>,
    loops: Seq<LoopTarget>,
    ret: FuncType,
    c: Code,
    inner: Code,
)
    requires
        s is While,
    ensures
        ({
            let target = loop_target(c);
            let body_to = (c.blocks.len() + 1) as usize;
            let c1 = terminated(
                reserved(reserved(reserved(c))),
                Inst::Jump(target.cond),
                target.cond as int,
            );
            let (c2, v) = code_exp(s->While_0, env, c1);
            let c3 = terminated(c2, Inst::Branch(v, body_to, target.exit), body_to as int);
            &&& code_stmt(s, env, loops, ret, c) == terminated(
                code_stmt(*s->While_1, env, loops.push(target), ret, c3),
                Inst::Jump(target.cond),
                target.exit as int,
            )
            &&& code_stmt(Stmt::Break, env, loops.push(target), ret, inner) == jumped(
                inner,
                target.exit,
            )
            &&& code_stmt(Stmt::Continue, env, loops.push(target), ret, inner) == jumped(
                inner,
                target.cond,
            )
        }),
{
    assert(loops.push(loop_target(c)).last() == loop_target(c));
}

} // verus!
