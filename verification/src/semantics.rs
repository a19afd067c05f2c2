//! The static rules of the language: which programs are accepted and, for
//! the others, the first thing that is wrong with them in the order of the
//! source text.
//!
//! The rules speak of scopes as the language sees them: names with what
//! they stand for, without any place in memory.

use vstd::prelude::*;
use crate::ast::{
    AddExp, Block, BlockItem, CompUnit, ConstDef, ConstExp, ConstInitVal, Decl, DeclOrFuncDef,
    EqExp, Exp, FuncDef, FuncFParam, FuncType, InitVal, LAndExp, LOrExp, LVal, MulExp, PrimaryExp,
    RelExp, Stmt, UnaryExp, VarDef,
};
use crate::consteval::const_exp;
use crate::error::SemanticError;
use crate::scope::{declared, entered, lookup, ParamSym, Scopes, Sym};

verus! {

/// What an expression yields: a number, the address of an array or of a
/// part of one, or nothing.
#[derive(Debug, Clone, Copy, PartialEq, Eq, Structural)]
pub enum ExpKind {
    Int,
    Array,
    Void,
}

/// The most cells an array may have.
pub const MAX_CELLS: i64 = 2147483647;

/// The outcome of a use that needs a number.
pub open spec fn need_int(k: Result<ExpKind, SemanticError>) -> Result<(), SemanticError> {
    match k {
        Err(e) => Err(e),
        Ok(ExpKind::Int) => Ok(()),
        Ok(_) => Err(SemanticError::TypeMismatch),
    }
}

/// The outcome of an operation on two numbers, the left one first.
pub open spec fn kind_pair(
    l: Result<ExpKind, SemanticError>,
    r: Result<ExpKind, SemanticError>,
) -> Result<ExpKind, SemanticError> {
    match need_int(l) {
        Err(e) => Err(e),
        Ok(()) => match need_int(r) {
            Err(e) => Err(e),
            Ok(()) => Ok(ExpKind::Int),
        },
    }
}

/// What an expression yields: what its one form, the logical or, yields.
pub closed spec fn kind_exp(e: Exp, env: Scopes<Sym>) -> Result<ExpKind, SemanticError>
    decreases e,
{
    match e {
        Exp::LOrExp(inner) => kind_lor(*inner, env),
    }
}

/// An expression yields what the logical or that it consists of yields.
pub proof fn lemma_kind_exp(e: Exp, env: Scopes<Sym>)
    ensures
        kind_exp(e, env) == match e {
            Exp::LOrExp(inner) => kind_lor(*inner, env),
        },
{
}

pub open spec fn kind_lor(e: LOrExp, env: Scopes<Sym>) -> Result<ExpKind, SemanticError>
    decreases e,
{
    match e {
        LOrExp::LAndExp(inner) => kind_land(*inner, env),
        LOrExp::Or(l, r) => kind_pair(kind_lor(*l, env), kind_land(*r, env)),
    }
}

pub open spec fn kind_land(e: LAndExp, env: Scopes<Sym>) -> Result<ExpKind, SemanticError>
    decreases e,
{
    match e {
        LAndExp::EqExp(inner) => kind_eq(*inner, env),
        LAndExp::And(l, r) => kind_pair(kind_land(*l, env), kind_eq(*r, env)),
    }
}

pub open spec fn kind_eq(e: EqExp, env: Scopes<Sym>) -> Result<ExpKind, SemanticError>
    decreases e,
{
    match e {
        EqExp::RelExp(inner) => kind_rel(*inner, env),
        EqExp::Eq(l, r) => kind_pair(kind_eq(*l, env), kind_rel(*r, env)),
        EqExp::Neq(l, r) => kind_pair(kind_eq(*l, env), kind_rel(*r, env)),
    }
}

pub open spec fn kind_rel(e: RelExp, env: Scopes<Sym>) -> Result<ExpKind, SemanticError>
    decreases e,
{
    match e {
        RelExp::AddExp(inner) => kind_add(*inner, env),
        RelExp::Lt(l, r) => kind_pair(kind_rel(*l, env), kind_add(*r, env)),
        RelExp::Gt(l, r) => kind_pair(kind_rel(*l, env), kind_add(*r, env)),
        RelExp::Le(l, r) => kind_pair(kind_rel(*l, env), kind_add(*r, env)),
        RelExp::Ge(l, r) => kind_pair(kind_rel(*l, env), kind_add(*r, env)),
    }
}

pub open spec fn kind_add(e: AddExp, env: Scopes<Sym>) -> Result<ExpKind, SemanticError>
    decreases e,
{
    match e {
        AddExp::MulExp(inner) => kind_mul(*inner, env),
        AddExp::Add(l, r) => kind_pair(kind_add(*l, env), kind_mul(*r, env)),
        AddExp::Sub(l, r) => kind_pair(kind_add(*l, env), kind_mul(*r, env)),
    }
}

pub open spec fn kind_mul(e: MulExp, env: Scopes<Sym>) -> Result<ExpKind, SemanticError>
    decreases e,
{
    match e {
        MulExp::UnaryExp(inner) => kind_unary(*inner, env),
        MulExp::Mul(l, r) => kind_pair(kind_mul(*l, env), kind_unary(*r, env)),
        MulExp::Div(l, r) => kind_pair(kind_mul(*l, env), kind_unary(*r, env)),
        MulExp::Mod(l, r) => kind_pair(kind_mul(*l, env), kind_unary(*r, env)),
    }
}

pub open spec fn kind_unary(e: UnaryExp, env: Scopes<Sym>) -> Result<ExpKind, SemanticError>
    decreases e,
{
    match e {
        UnaryExp::PrimaryExp(inner) => kind_primary(*inner, env),
        UnaryExp::Call(name, args) => kind_call(name@, args@, env),
        UnaryExp::UnaryOp(_, inner) => match need_int(kind_unary(*inner, env)) {
            Err(e) => Err(e),
            Ok(()) => Ok(ExpKind::Int),
        },
    }
}

pub open spec fn kind_primary(e: PrimaryExp, env: Scopes<Sym>) -> Result<ExpKind, SemanticError>
    decreases e,
{
    match e {
        PrimaryExp::Paren(inner) => kind_exp(*inner, env),
        PrimaryExp::LVal(lval) => kind_lval(lval, env),
        PrimaryExp::Number(_) => Ok(ExpKind::Int),
    }
}

/// How many indices a name takes to reach a number; none for a function.
pub open spec fn rank_of(sym: Sym) -> Option<int> {
    match sym {
        Sym::Const(_) => Some(0),
        Sym::ConstArray(dims, _) => Some(dims.len() as int),
        Sym::Var(dims) => Some(dims.len() as int),
        Sym::Ptr(dims) => Some(dims.len() as int + 1),
        Sym::Func(_, _) => None,
    }
}

/// What a name with indices yields. The name has to be declared and be no
/// function; it takes at most as many indices as it has dimensions, each a
/// number. With all of them it yields a number, with fewer an array.
pub open spec fn kind_lval(lval: LVal, env: Scopes<Sym>) -> Result<ExpKind, SemanticError>
    decreases lval,
{
    match lookup(env, lval.ident@) {
        None => Err(SemanticError::UndefinedIdentifier),
        Some(sym) => match rank_of(sym) {
            None => Err(SemanticError::TypeMismatch),
            Some(rank) => if lval.indices@.len() > rank {
                Err(SemanticError::TypeMismatch)
            } else {
                match kind_indices(lval.indices@, env) {
                    Err(e) => Err(e),
                    Ok(()) => Ok(
                        if lval.indices@.len() == rank {
                            ExpKind::Int
                        } else {
                            ExpKind::Array
                        },
                    ),
                }
            },
        },
    }
}

/// Indices have to be numbers, each of them.
pub open spec fn kind_indices(es: Seq<Exp>, env: Scopes<Sym>) -> Result<(), SemanticError>
    decreases es,
{
    if es.len() == 0 {
        Ok(())
    } else {
        match need_int(kind_exp(es[0], env)) {
            Err(e) => Err(e),
            Ok(()) => kind_indices(es.drop_first(), env),
        }
    }
}

/// Whether an argument of that kind fits the parameter.
pub open spec fn fits(k: ExpKind, p: ParamSym) -> bool {
    if p.is_array {
        k == ExpKind::Array
    } else {
        k == ExpKind::Int
    }
}

/// What a call yields. The name has to stand for a function that takes as
/// many parameters as there are arguments; each argument has to be an array
/// where the parameter is one and a number where it is not.
pub open spec fn kind_call(name: Seq<char>, args: Seq<Exp>, env: Scopes<Sym>) -> Result<
    ExpKind,
    SemanticError,
>
    decreases args, 1int,
{
    match lookup(env, name) {
        Some(Sym::Func(ret, params)) => if args.len() != params.len() {
            Err(SemanticError::ArgumentCountMismatch)
        } else {
            match kind_args(args, params, env) {
                Err(e) => Err(e),
                Ok(()) => Ok(
                    match ret {
                        FuncType::Int => ExpKind::Int,
                        FuncType::Void => ExpKind::Void,
                    },
                ),
            }
        },
        _ => Err(SemanticError::UndefinedFunction),
    }
}

/// Arguments have to fit their parameters, each of them.
pub open spec fn kind_args(args: Seq<Exp>, params: Seq<ParamSym>, env: Scopes<Sym>) -> Result<
    (),
    SemanticError,
>
    decreases args, 0int,
{
    if args.len() == 0 || params.len() == 0 {
        Ok(())
    } else {
        match kind_exp(args[0], env) {
            Err(e) => Err(e),
            Ok(k) => if fits(k, params[0]) {
                kind_args(args.drop_first(), params.drop_first(), env)
            } else {
                Err(SemanticError::TypeMismatch)
            },
        }
    }
}

/// Whether the left side of an assignment can be assigned to: it has to
/// yield a number and stand for a variable or a parameter.
pub open spec fn assignable(lval: LVal, env: Scopes<Sym>) -> Result<(), SemanticError> {
    match need_int(kind_lval(lval, env)) {
        Err(e) => Err(e),
        Ok(()) => match lookup(env, lval.ident@) {
            Some(Sym::Var(_)) => Ok(()),
            Some(Sym::Ptr(_)) => Ok(()),
            _ => Err(SemanticError::TypeMismatch),
        },
    }
}

/// The product of the dimensions, a zero counted as one: a bound on the
/// cells of the array and of each of its parts.
pub open spec fn span(dims: Seq<i64>) -> int
    decreases dims.len(),
{
    if dims.len() == 0 {
        1
    } else if dims[0] == 0 {
        span(dims.drop_first())
    } else {
        dims[0] * span(dims.drop_first())
    }
}

/// The product of the dimensions: how many cells the array has.
pub open spec fn cells(dims: Seq<i64>) -> int
    decreases dims.len(),
{
    if dims.len() == 0 {
        1
    } else {
        dims[0] * cells(dims.drop_first())
    }
}

/// How many cells lie between two neighbours along index `k` of an array
/// in row-major order: as many as the dimensions after it span.
pub open spec fn stride(dims: Seq<i64>, k: int) -> int {
    cells(dims.subrange(k + 1, dims.len() as int))
}

/// The expression of a constant expression.
pub open spec fn inner_exp(c: ConstExp) -> Exp {
    match c {
        ConstExp::Exp(e) => *e,
    }
}

/// The numbers `before` with those after them that the dimension
/// expressions give, each constant and not negative.
pub open spec fn dims_after(before: Seq<i64>, es: Seq<ConstExp>, env: Scopes<Sym>) -> Result<
    Seq<i64>,
    SemanticError,
>
    decreases es.len(),
{
    if es.len() == 0 {
        Ok(before)
    } else {
        match const_exp(inner_exp(es[0]), env) {
            Err(e) => Err(e),
            Ok(d) => if d < 0 {
                Err(SemanticError::TypeMismatch)
            } else {
                dims_after(before.push(d), es.drop_first(), env)
            },
        }
    }
}

/// The numbers that the dimension expressions give.
pub open spec fn dim_values(es: Seq<ConstExp>, env: Scopes<Sym>) -> Result<
    Seq<i64>,
    SemanticError,
> {
    dims_after(Seq::empty(), es, env)
}

/// The dimensions that the constant expressions give. Each has to be
/// constant and not negative, and together they may not span too many
/// cells.
pub open spec fn const_dims(es: Seq<ConstExp>, env: Scopes<Sym>) -> Result<
    Seq<i64>,
    SemanticError,
> {
    match dim_values(es, env) {
        Err(e) => Err(e),
        Ok(dims) => if span(dims) <= MAX_CELLS {
            Ok(dims)
        } else {
            Err(SemanticError::TypeMismatch)
        },
    }
}

/// `values`, and zeros after them up to `n` cells.
pub open spec fn padded(values: Seq<i64>, n: int) -> Seq<i64> {
    if values.len() < n {
        values + Seq::new((n - values.len()) as nat, |i: int| 0i64)
    } else {
        values
    }
}

/// The cells `before` with those after them that a constant initializer
/// gives to what has the dimensions `dims`. A number takes an expression.
/// An array takes a list of at most as many items as its first dimension,
/// each item for one part of the array; the cells that no item reaches are
/// zero.
pub open spec fn const_fill(
    before: Seq<i64>,
    init: ConstInitVal,
    dims: Seq<i64>,
    env: Scopes<Sym>,
) -> Result<Seq<i64>, SemanticError>
    decreases init,
{
    match init {
        ConstInitVal::Exp(c) => if dims.len() == 0 {
            match const_exp(inner_exp(*c), env) {
                Err(e) => Err(e),
                Ok(v) => Ok(before.push(v)),
            }
        } else {
            Err(SemanticError::TypeMismatch)
        },
        ConstInitVal::Array(items) => if dims.len() == 0 || items@.len() > dims[0] {
            Err(SemanticError::TypeMismatch)
        } else {
            match const_fill_list(before, items@, dims.drop_first(), env) {
                Err(e) => Err(e),
                Ok(filled) => Ok(padded(filled, before.len() + cells(dims))),
            }
        },
    }
}

pub open spec fn const_fill_list(
    before: Seq<i64>,
    items: Seq<ConstInitVal>,
    dims: Seq<i64>,
    env: Scopes<Sym>,
) -> Result<Seq<i64>, SemanticError>
    decreases items,
{
    if items.len() == 0 {
        Ok(before)
    } else {
        match const_fill(before, items[0], dims, env) {
            Err(e) => Err(e),
            Ok(filled) => const_fill_list(filled, items.drop_first(), dims, env),
        }
    }
}

/// A constant initializer that fits gives as many cells as the dimensions
/// have.
pub proof fn lemma_const_fill_len(
    before: Seq<i64>,
    init: ConstInitVal,
    dims: Seq<i64>,
    env: Scopes<Sym>,
)
    requires
        forall|i: int| 0 <= i < dims.len() ==> #[trigger] dims[i] >= 0,
        const_fill(before, init, dims, env) is Ok,
    ensures
        const_fill(before, init, dims, env)->Ok_0.len() == before.len() + cells(dims),
    decreases init, 1int,
{
    match init {
        ConstInitVal::Exp(_) => {
            assert(cells(dims) == 1);
        },
        ConstInitVal::Array(items) => {
            let part = dims.drop_first();
            assert forall|i: int| 0 <= i < part.len() implies #[trigger] part[i] >= 0 by {
                assert(part[i] == dims[i + 1]);
            }
            lemma_const_fill_list_len(before, items@, part, env);
            lemma_cells_nonnegative(part);
            let count = items@.len() as int;
            let dim = dims[0] as int;
            let c = cells(part);
            assert(count * c <= dim * c) by (nonlinear_arith)
                requires
                    0 <= count <= dim,
                    0 <= c,
            ;
        },
    }
}

/// The items of a constant initializer list that fit give as many cells
/// each as the dimensions have.
pub proof fn lemma_const_fill_list_len(
    before: Seq<i64>,
    items: Seq<ConstInitVal>,
    dims: Seq<i64>,
    env: Scopes<Sym>,
)
    requires
        forall|i: int| 0 <= i < dims.len() ==> #[trigger] dims[i] >= 0,
        const_fill_list(before, items, dims, env) is Ok,
    ensures
        const_fill_list(before, items, dims, env)->Ok_0.len() == before.len() + items.len()
            * cells(dims),
    decreases items, 0int,
{
    let c = cells(dims);
    if items.len() == 0 {
        assert(0 * c == 0) by (nonlinear_arith);
    } else {
        lemma_const_fill_len(before, items[0], dims, env);
        let filled = const_fill(before, items[0], dims, env)->Ok_0;
        lemma_const_fill_list_len(filled, items.drop_first(), dims, env);
        let n = items.len() as int;
        assert(c + (n - 1) * c == n * c) by (nonlinear_arith);
    }
}

/// Dimensions that are not negative have no negative number of cells.
pub proof fn lemma_cells_nonnegative(dims: Seq<i64>)
    requires
        forall|i: int| 0 <= i < dims.len() ==> #[trigger] dims[i] >= 0,
    ensures
        cells(dims) >= 0,
    decreases dims.len(),
{
    if dims.len() > 0 {
        let part = dims.drop_first();
        assert forall|i: int| 0 <= i < part.len() implies #[trigger] part[i] >= 0 by {
            assert(part[i] == dims[i + 1]);
        }
        lemma_cells_nonnegative(part);
        let d = dims[0] as int;
        let c = cells(part);
        assert(d * c >= 0) by (nonlinear_arith)
            requires
                d >= 0,
                c >= 0,
        ;
    }
}

/// The cells `before` with those after them that the initializer of a
/// global variable gives: as for a constant, since a global is initialized
/// before the program runs.
pub open spec fn global_fill(before: Seq<i64>, init: InitVal, dims: Seq<i64>, env: Scopes<Sym>)
    -> Result<Seq<i64>, SemanticError>
    decreases init,
{
    match init {
        InitVal::Exp(e) => if dims.len() == 0 {
            match const_exp(*e, env) {
                Err(e) => Err(e),
                Ok(v) => Ok(before.push(v)),
            }
        } else {
            Err(SemanticError::TypeMismatch)
        },
        InitVal::Array(items) => if dims.len() == 0 || items@.len() > dims[0] {
            Err(SemanticError::TypeMismatch)
        } else {
            match global_fill_list(before, items@, dims.drop_first(), env) {
                Err(e) => Err(e),
                Ok(filled) => Ok(padded(filled, before.len() + cells(dims))),
            }
        },
    }
}

pub open spec fn global_fill_list(
    before: Seq<i64>,
    items: Seq<InitVal>,
    dims: Seq<i64>,
    env: Scopes<Sym>,
) -> Result<Seq<i64>, SemanticError>
    decreases items,
{
    if items.len() == 0 {
        Ok(before)
    } else {
        match global_fill(before, items[0], dims, env) {
            Err(e) => Err(e),
            Ok(filled) => global_fill_list(filled, items.drop_first(), dims, env),
        }
    }
}

/// Whether the initializer of a local variable fits what has the
/// dimensions `dims`: the shape as for a constant, each expression a number.
pub open spec fn local_fill(init: InitVal, dims: Seq<i64>, env: Scopes<Sym>) -> Result<
    (),
    SemanticError,
>
    decreases init,
{
    match init {
        InitVal::Exp(e) => if dims.len() == 0 {
            need_int(kind_exp(*e, env))
        } else {
            Err(SemanticError::TypeMismatch)
        },
        InitVal::Array(items) => if dims.len() == 0 || items@.len() > dims[0] {
            Err(SemanticError::TypeMismatch)
        } else {
            local_fill_list(items@, dims.drop_first(), env)
        },
    }
}

pub open spec fn local_fill_list(items: Seq<InitVal>, dims: Seq<i64>, env: Scopes<Sym>) -> Result<
    (),
    SemanticError,
>
    decreases items,
{
    if items.len() == 0 {
        Ok(())
    } else {
        match local_fill(items[0], dims, env) {
            Err(e) => Err(e),
            Ok(()) => local_fill_list(items.drop_first(), dims, env),
        }
    }
}

/// The scopes after a constant is defined. Its name may not be declared in
/// the innermost scope yet; its dimensions and its initializer are read
/// before the name is declared.
pub open spec fn check_const_def(d: ConstDef, env: Scopes<Sym>) -> Result<
    Scopes<Sym>,
    SemanticError,
> {
    if env.last().contains_key(d.ident@) {
        Err(SemanticError::DuplicateDeclaration)
    } else {
        match const_dims(d.dimensions@, env) {
            Err(e) => Err(e),
            Ok(dims) => match const_fill(Seq::empty(), d.init_val, dims, env) {
                Err(e) => Err(e),
                Ok(values) => declared(
                    env,
                    d.ident@,
                    if dims.len() == 0 {
                        Sym::Const(values[0])
                    } else {
                        Sym::ConstArray(dims, values)
                    },
                ),
            },
        }
    }
}

pub open spec fn check_const_defs(ds: Seq<ConstDef>, env: Scopes<Sym>) -> Result<
    Scopes<Sym>,
    SemanticError,
>
    decreases ds.len(),
{
    if ds.len() == 0 {
        Ok(env)
    } else {
        match check_const_def(ds[0], env) {
            Err(e) => Err(e),
            Ok(after) => check_const_defs(ds.drop_first(), after),
        }
    }
}

/// The name of a variable definition.
pub open spec fn var_name(d: VarDef) -> Seq<char> {
    match d {
        VarDef::Uninit(name, _) => name@,
        VarDef::Init(name, _, _) => name@,
    }
}

/// The dimension expressions of a variable definition.
pub open spec fn var_dims(d: VarDef) -> Seq<ConstExp> {
    match d {
        VarDef::Uninit(_, dims) => dims@,
        VarDef::Init(_, dims, _) => dims@,
    }
}

/// The scopes after a variable is defined. Its name may not be declared in
/// the innermost scope yet; its dimensions and its initializer are read
/// before the name is declared. The initializer of a global is constant.
pub open spec fn check_var_def(d: VarDef, env: Scopes<Sym>, global: bool) -> Result<
    Scopes<Sym>,
    SemanticError,
> {
    if env.last().contains_key(var_name(d)) {
        Err(SemanticError::DuplicateDeclaration)
    } else {
        match const_dims(var_dims(d), env) {
            Err(e) => Err(e),
            Ok(dims) => {
                let init = match d {
                    VarDef::Uninit(_, _) => Ok(()),
                    VarDef::Init(_, _, init) => if global {
                        match global_fill(Seq::empty(), init, dims, env) {
                            Err(e) => Err(e),
                            Ok(_) => Ok(()),
                        }
                    } else {
                        local_fill(init, dims, env)
                    },
                };
                match init {
                    Err(e) => Err(e),
                    Ok(()) => declared(env, var_name(d), Sym::Var(dims)),
                }
            },
        }
    }
}

pub open spec fn check_var_defs(ds: Seq<VarDef>, env: Scopes<Sym>, global: bool) -> Result<
    Scopes<Sym>,
    SemanticError,
>
    decreases ds.len(),
{
    if ds.len() == 0 {
        Ok(env)
    } else {
        match check_var_def(ds[0], env, global) {
            Err(e) => Err(e),
            Ok(after) => check_var_defs(ds.drop_first(), after, global),
        }
    }
}

/// The scopes after a declaration.
pub open spec fn check_decl(d: Decl, env: Scopes<Sym>, global: bool) -> Result<
    Scopes<Sym>,
    SemanticError,
> {
    match d {
        Decl::ConstDecl(c) => check_const_defs(c.const_defs@, env),
        Decl::VarDecl(v) => check_var_defs(v.var_defs@, env, global),
    }
}

/// Whether a statement is accepted where it stands: inside a loop or not,
/// in a function of that return type.
pub open spec fn check_stmt(s: Stmt, env: Scopes<Sym>, in_loop: bool, ret: FuncType) -> Result<
    (),
    SemanticError,
>
    decreases s,
{
    match s {
        Stmt::Assign(lval, e) => match assignable(lval, env) {
            Err(e) => Err(e),
            Ok(()) => need_int(kind_exp(e, env)),
        },
        Stmt::Exp(None) => Ok(()),
        Stmt::Exp(Some(e)) => match kind_exp(e, env) {
            Err(e) => Err(e),
            Ok(_) => Ok(()),
        },
        Stmt::Block(b) => check_block(b, env, in_loop, ret),
        Stmt::If(c, t, e) => match need_int(kind_exp(c, env)) {
            Err(e) => Err(e),
            Ok(()) => match check_stmt(*t, env, in_loop, ret) {
                Err(e) => Err(e),
                Ok(()) => match e {
                    Some(other) => check_stmt(*other, env, in_loop, ret),
                    None => Ok(()),
                },
            },
        },
        Stmt::While(c, body) => match need_int(kind_exp(c, env)) {
            Err(e) => Err(e),
            Ok(()) => check_stmt(*body, env, true, ret),
        },
        Stmt::Break => if in_loop {
            Ok(())
        } else {
            Err(SemanticError::BreakOutsideLoop)
        },
        Stmt::Continue => if in_loop {
            Ok(())
        } else {
            Err(SemanticError::ContinueOutsideLoop)
        },
        Stmt::Return(None) => Ok(()),
        Stmt::Return(Some(e)) => if ret == FuncType::Void {
            Err(SemanticError::ReturnTypeMismatch)
        } else {
            need_int(kind_exp(e, env))
        },
    }
}

/// Whether a block is accepted: its items in order, in a scope of its own.
pub open spec fn check_block(b: Block, env: Scopes<Sym>, in_loop: bool, ret: FuncType)
    -> Result<(), SemanticError>
    decreases b,
{
    match check_items(b.items@, entered(env), in_loop, ret) {
        Err(e) => Err(e),
        Ok(_) => Ok(()),
    }
}

/// The scopes after one item of a block.
pub open spec fn check_item(item: BlockItem, env: Scopes<Sym>, in_loop: bool, ret: FuncType)
    -> Result<Scopes<Sym>, SemanticError>
    decreases item,
{
    match item {
        BlockItem::Decl(d) => check_decl(*d, env, false),
        BlockItem::Stmt(s) => match check_stmt(*s, env, in_loop, ret) {
            Err(e) => Err(e),
            Ok(()) => Ok(env),
        },
    }
}

/// The scopes after the items of a block.
pub open spec fn check_items(
    items: Seq<BlockItem>,
    env: Scopes<Sym>,
    in_loop: bool,
    ret: FuncType,
) -> Result<Scopes<Sym>, SemanticError>
    decreases items,
{
    if items.len() == 0 {
        Ok(env)
    } else {
        match check_item(items[0], env, in_loop, ret) {
            Err(e) => Err(e),
            Ok(after) => check_items(items.drop_first(), after, in_loop, ret),
        }
    }
}

/// Declaring a name changes the innermost scope only.
pub proof fn lemma_declared_outer(env: Scopes<Sym>, name: Seq<char>, sym: Sym)
    requires
        env.len() >= 1,
        declared(env, name, sym) is Ok,
    ensures
        declared(env, name, sym)->Ok_0.len() == env.len(),
        declared(env, name, sym)->Ok_0.drop_last() == env.drop_last(),
{
    assert(declared(env, name, sym)->Ok_0.drop_last() =~= env.drop_last());
}

/// Constant definitions change the innermost scope only.
pub proof fn lemma_const_defs_outer(ds: Seq<ConstDef>, env: Scopes<Sym>)
    requires
        env.len() >= 1,
        check_const_defs(ds, env) is Ok,
    ensures
        check_const_defs(ds, env)->Ok_0.len() == env.len(),
        check_const_defs(ds, env)->Ok_0.drop_last() == env.drop_last(),
    decreases ds.len(),
{
    if ds.len() > 0 {
        let d = ds[0];
        let dims = const_dims(d.dimensions@, env)->Ok_0;
        let values = const_fill(Seq::empty(), d.init_val, dims, env)->Ok_0;
        let sym = if dims.len() == 0 {
            Sym::Const(values[0])
        } else {
            Sym::ConstArray(dims, values)
        };
        lemma_declared_outer(env, d.ident@, sym);
        lemma_const_defs_outer(ds.drop_first(), check_const_def(d, env)->Ok_0);
    }
}

/// Variable definitions change the innermost scope only.
pub proof fn lemma_var_defs_outer(ds: Seq<VarDef>, env: Scopes<Sym>, global: bool)
    requires
        env.len() >= 1,
        check_var_defs(ds, env, global) is Ok,
    ensures
        check_var_defs(ds, env, global)->Ok_0.len() == env.len(),
        check_var_defs(ds, env, global)->Ok_0.drop_last() == env.drop_last(),
    decreases ds.len(),
{
    if ds.len() > 0 {
        let d = ds[0];
        let dims = const_dims(var_dims(d), env)->Ok_0;
        lemma_declared_outer(env, var_name(d), Sym::Var(dims));
        lemma_var_defs_outer(ds.drop_first(), check_var_def(d, env, global)->Ok_0, global);
    }
}

/// An item of a block changes the innermost scope only.
pub proof fn lemma_item_outer(item: BlockItem, env: Scopes<Sym>, in_loop: bool, ret: FuncType)
    requires
        env.len() >= 1,
        check_item(item, env, in_loop, ret) is Ok,
    ensures
        check_item(item, env, in_loop, ret)->Ok_0.len() == env.len(),
        check_item(item, env, in_loop, ret)->Ok_0.drop_last() == env.drop_last(),
{
    match item {
        BlockItem::Decl(d) => match *d {
            Decl::ConstDecl(c) => lemma_const_defs_outer(c.const_defs@, env),
            Decl::VarDecl(v) => lemma_var_defs_outer(v.var_defs@, env, false),
        },
        BlockItem::Stmt(_) => {},
    }
}

/// The shape of a parameter. The listed dimensions of an array parameter
/// are read like those of an array.
pub open spec fn param_shape(p: FuncFParam, env: Scopes<Sym>) -> Result<ParamSym, SemanticError> {
    if p.is_array {
        match const_dims(p.dimensions@, env) {
            Err(e) => Err(e),
            Ok(dims) => Ok(ParamSym { is_array: true, dims }),
        }
    } else {
        Ok(ParamSym { is_array: false, dims: Seq::empty() })
    }
}

/// The shapes `before` with those of the parameters after them.
pub open spec fn shapes_after(before: Seq<ParamSym>, ps: Seq<FuncFParam>, env: Scopes<Sym>)
    -> Result<Seq<ParamSym>, SemanticError>
    decreases ps.len(),
{
    if ps.len() == 0 {
        Ok(before)
    } else {
        match param_shape(ps[0], env) {
            Err(e) => Err(e),
            Ok(shape) => shapes_after(before.push(shape), ps.drop_first(), env),
        }
    }
}

/// The shapes of parameters.
pub open spec fn param_syms(ps: Seq<FuncFParam>, env: Scopes<Sym>) -> Result<
    Seq<ParamSym>,
    SemanticError,
> {
    shapes_after(Seq::empty(), ps, env)
}

/// What a parameter of that shape stands for in the body.
pub open spec fn param_sym(shape: ParamSym) -> Sym {
    if shape.is_array {
        Sym::Ptr(shape.dims)
    } else {
        Sym::Var(Seq::empty())
    }
}

/// The scopes after the parameters are declared, in order, in the
/// innermost scope.
pub open spec fn declare_params(ps: Seq<FuncFParam>, shapes: Seq<ParamSym>, env: Scopes<Sym>)
    -> Result<Scopes<Sym>, SemanticError>
    decreases ps.len(),
{
    if ps.len() == 0 || shapes.len() == 0 {
        Ok(env)
    } else {
        match declared(env, ps[0].ident@, param_sym(shapes[0])) {
            Err(e) => Err(e),
            Ok(after) => declare_params(ps.drop_first(), shapes.drop_first(), after),
        }
    }
}

/// The scopes after a function is defined. Its name may not be declared
/// yet; it is declared before its body is read, so the body can call it.
/// The parameters have a scope of their own around that of the body.
pub open spec fn check_func(f: FuncDef, env: Scopes<Sym>) -> Result<Scopes<Sym>, SemanticError> {
    if env.last().contains_key(f.ident@) {
        Err(SemanticError::DuplicateDeclaration)
    } else {
        match param_syms(f.params@, env) {
            Err(e) => Err(e),
            Ok(shapes) => match declared(env, f.ident@, Sym::Func(f.func_type, shapes)) {
                Err(e) => Err(e),
                Ok(with_func) => match declare_params(f.params@, shapes, entered(with_func)) {
                    Err(e) => Err(e),
                    Ok(inside) => match check_block(f.block, inside, false, f.func_type) {
                        Err(e) => Err(e),
                        Ok(()) => Ok(with_func),
                    },
                },
            },
        }
    }
}

/// The scopes after the items of a compilation unit.
pub open spec fn check_unit(u: CompUnit, env: Scopes<Sym>) -> Result<Scopes<Sym>, SemanticError>
    decreases u,
{
    let before = match u.prev_unit {
        Some(prev) => check_unit(*prev, env),
        None => Ok(env),
    };
    match before {
        Err(e) => Err(e),
        Ok(after) => match u.cur_unit {
            DeclOrFuncDef::Decl(d) => check_decl(*d, after, true),
            DeclOrFuncDef::FuncDef(f) => check_func(*f, after),
        },
    }
}

/// The scopes in which a program starts: the outermost alone, with nothing
/// declared.
pub open spec fn initial_scopes() -> Scopes<Sym> {
    seq![Map::empty()]
}

/// Whether a program is accepted, and if it is not, what is wrong first.
pub open spec fn check_program(u: CompUnit) -> Result<(), SemanticError> {
    match check_unit(u, initial_scopes()) {
        Err(e) => Err(e),
        Ok(_) => Ok(()),
    }
}

} // verus!
