//! What lowering makes of a compilation unit: its globals and the code of
//! its functions.

use vstd::prelude::*;
use crate::ast::{CompUnit, ConstDef, Decl, DeclOrFuncDef, FuncDef, FuncFParam, FuncType, VarDef};
use crate::builder::{emitted, next_value, Code};
use crate::code_stmt::{code_block, strides_seq};
use crate::ir::{Function, Global, Inst, Module, Value};
use crate::scope::{declared, entered, syms_of, ParamSym, Placed, Scopes, Sym};
use crate::semantics::{
    cells, const_dims, const_fill, global_fill, padded, param_syms, var_dims, var_name,
};

verus! {

/// What a module says of a function besides its blocks: its name, what it
/// returns, and how many parameters it takes.
pub struct Signature {
    pub name: Seq<char>,
    pub ret: FuncType,
    pub params: nat,
}

/// A global as a module holds it: its name and the initial value of each
/// of its cells.
pub struct GlobalView {
    pub name: Seq<char>,
    pub init: Seq<i64>,
}

/// A function as a module holds it: its signature and the instructions of
/// each of its blocks.
pub struct FunctionView {
    pub signature: Signature,
    pub blocks: Seq<Seq<Inst>>,
}

/// A module: its globals and its functions, each in order.
pub struct ModuleView {
    pub globals: Seq<GlobalView>,
    pub functions: Seq<FunctionView>,
}

/// The signature of a function definition.
pub open spec fn signature_of(f: FuncDef) -> Signature {
    Signature { name: f.ident@, ret: f.func_type, params: f.params@.len() }
}

/// The globals of a module, in order.
pub open spec fn globals_view(globals: Seq<Global>) -> Seq<GlobalView> {
    Seq::new(
        globals.len(),
        |i: int| GlobalView { name: globals[i].name@, init: globals[i].init@ },
    )
}

/// One function of a module.
pub open spec fn function_view(f: Function) -> FunctionView {
    FunctionView {
        signature: Signature { name: f.name@, ret: f.ret, params: f.params as nat },
        blocks: Seq::new(f.blocks@.len(), |i: int| f.blocks@[i].insts@),
    }
}

/// The functions of a module, in order.
pub open spec fn functions_view(functions: Seq<Function>) -> Seq<FunctionView> {
    Seq::new(functions.len(), |i: int| function_view(functions[i]))
}

/// What a module holds.
pub open spec fn module_view(m: Module) -> ModuleView {
    ModuleView { globals: globals_view(m.globals@), functions: functions_view(m.functions@) }
}

/// The scopes and the globals after a constant is defined at the top
/// level. A number takes no memory: its name stands for its value. An
/// array becomes a global with its elements, and its name stands for the
/// global with the strides of the array.
pub open spec fn code_global_const(d: ConstDef, env: Scopes<Placed>, globals: Seq<GlobalView>) -> (
    Scopes<Placed>,
    Seq<GlobalView>,
) {
    let dims = const_dims(d.dimensions@, syms_of(env))->Ok_0;
    let values = const_fill(Seq::empty(), d.init_val, dims, syms_of(env))->Ok_0;
    if dims.len() == 0 {
        let placed = Placed {
            sym: Sym::Const(values[0]),
            slot: Value::Const(values[0]),
            strides: Seq::empty(),
        };
        (declared(env, d.ident@, placed)->Ok_0, globals)
    } else {
        let placed = Placed {
            sym: Sym::ConstArray(dims, values),
            slot: Value::Global(globals.len() as usize),
            strides: strides_seq(dims),
        };
        (
            declared(env, d.ident@, placed)->Ok_0,
            globals.push(GlobalView { name: d.ident@, init: values }),
        )
    }
}

pub open spec fn code_global_consts(
    ds: Seq<ConstDef>,
    env: Scopes<Placed>,
    globals: Seq<GlobalView>,
) -> (Scopes<Placed>, Seq<GlobalView>)
    decreases ds.len(),
{
    if ds.len() == 0 {
        (env, globals)
    } else {
        let (after, more) = code_global_const(ds[0], env, globals);
        code_global_consts(ds.drop_first(), after, more)
    }
}

/// The scopes and the globals after a global variable is defined: it
/// becomes a global with what its initializer gives, or with zeros where it
/// has none, and its name stands for the global with its strides.
pub open spec fn code_global_var(d: VarDef, env: Scopes<Placed>, globals: Seq<GlobalView>) -> (
    Scopes<Placed>,
    Seq<GlobalView>,
) {
    let dims = const_dims(var_dims(d), syms_of(env))->Ok_0;
    let values = match d {
        VarDef::Uninit(_, _) => padded(Seq::empty(), cells(dims)),
        VarDef::Init(_, _, init) => global_fill(Seq::empty(), init, dims, syms_of(env))->Ok_0,
    };
    let placed = Placed {
        sym: Sym::Var(dims),
        slot: Value::Global(globals.len() as usize),
        strides: strides_seq(dims),
    };
    (
        declared(env, var_name(d), placed)->Ok_0,
        globals.push(GlobalView { name: var_name(d), init: values }),
    )
}

pub open spec fn code_global_vars(ds: Seq<VarDef>, env: Scopes<Placed>, globals: Seq<GlobalView>)
    -> (Scopes<Placed>, Seq<GlobalView>)
    decreases ds.len(),
{
    if ds.len() == 0 {
        (env, globals)
    } else {
        let (after, more) = code_global_var(ds[0], env, globals);
        code_global_vars(ds.drop_first(), after, more)
    }
}

/// The scopes and the globals after a declaration at the top level.
pub open spec fn code_global_decl(d: Decl, env: Scopes<Placed>, globals: Seq<GlobalView>) -> (
    Scopes<Placed>,
    Seq<GlobalView>,
) {
    match d {
        Decl::ConstDecl(c) => code_global_consts(c.const_defs@, env, globals),
        Decl::VarDecl(v) => code_global_vars(v.var_defs@, env, globals),
    }
}

/// The strides of an array parameter with the listed dimensions: its
/// first index steps over all of them, the others as in an array of them.
pub open spec fn pointer_strides(dims: Seq<i64>) -> Seq<i64> {
    seq![cells(dims) as i64] + strides_seq(dims)
}

/// What a parameter of the shape stands for in the body, stored at `slot`.
pub open spec fn param_placed(shape: ParamSym, slot: Value) -> Placed {
    if shape.is_array {
        Placed { sym: Sym::Ptr(shape.dims), slot, strides: pointer_strides(shape.dims) }
    } else {
        Placed { sym: Sym::Var(Seq::empty()), slot, strides: Seq::empty() }
    }
}

/// The code and the scopes after the parameters from the `k`th on are
/// declared: each gets a cell, which takes the argument, and its name
/// stands for the cell.
pub open spec fn code_params(
    ps: Seq<FuncFParam>,
    shapes: Seq<ParamSym>,
    k: int,
    env: Scopes<Placed>,
    c: Code,
) -> (Code, Scopes<Placed>)
    decreases ps.len(),
{
    if ps.len() == 0 || shapes.len() == 0 {
        (c, env)
    } else {
        let slot = next_value(c);
        let c1 = emitted(
            emitted(c, Inst::Alloc(1)),
            Inst::Store(Value::Param(k as usize), slot),
        );
        code_params(
            ps.drop_first(),
            shapes.drop_first(),
            k + 1,
            declared(env, ps[0].ident@, param_placed(shapes[0], slot))->Ok_0,
            c1,
        )
    }
}

/// What the name of a function stands for.
pub open spec fn func_placed(f: FuncDef, shapes: Seq<ParamSym>) -> Placed {
    Placed { sym: Sym::Func(f.func_type, shapes), slot: Value::Const(0), strides: Seq::empty() }
}

/// The return that ends a function whose body leaves a block open: of
/// zero where the function returns a number.
pub open spec fn last_return(t: FuncType) -> Inst {
    match t {
        FuncType::Int => Inst::Return(Some(Value::Const(0))),
        FuncType::Void => Inst::Return(None),
    }
}

/// The scopes after a function is defined, and its blocks. The function
/// is declared; in a scope of their own its parameters are declared, in the
/// entry block; the body is lowered; and the block that the body leaves
/// open ends in a return.
pub open spec fn code_func(f: FuncDef, env: Scopes<Placed>) -> (Scopes<Placed>, Seq<Seq<Inst>>) {
    let shapes = param_syms(f.params@, syms_of(env))->Ok_0;
    let with_func = declared(env, f.ident@, func_placed(f, shapes))->Ok_0;
    let start = Code { blocks: seq![Seq::<Inst>::empty()], cur: 0 };
    let (c1, inside) = code_params(f.params@, shapes, 0, entered(with_func), start);
    let c2 = code_block(f.block, inside, Seq::empty(), f.func_type, c1);
    (with_func, c2.blocks.update(c2.cur, c2.blocks[c2.cur].push(last_return(f.func_type))))
}

/// The scopes and the module while a compilation unit is lowered.
pub struct Lowered {
    pub env: Scopes<Placed>,
    pub module: ModuleView,
}

/// The scopes and the module after one item of the top level.
pub open spec fn code_unit_item(item: DeclOrFuncDef, st: Lowered) -> Lowered {
    match item {
        DeclOrFuncDef::Decl(d) => {
            let (env, globals) = code_global_decl(*d, st.env, st.module.globals);
            Lowered { env, module: ModuleView { globals, functions: st.module.functions } }
        },
        DeclOrFuncDef::FuncDef(f) => {
            let (env, blocks) = code_func(*f, st.env);
            Lowered {
                env,
                module: ModuleView {
                    globals: st.module.globals,
                    functions: st.module.functions.push(
                        FunctionView { signature: signature_of(*f), blocks },
                    ),
                },
            }
        },
    }
}

/// The scopes and the module before the last item of a compilation unit.
pub open spec fn code_unit_before(u: CompUnit, st: Lowered) -> Lowered
    decreases u, 0int,
{
    match u.prev_unit {
        Some(prev) => code_unit(*prev, st),
        None => st,
    }
}

/// The scopes and the module after the items of a compilation unit, in
/// order.
pub open spec fn code_unit(u: CompUnit, st: Lowered) -> Lowered
    decreases u, 1int,
{
    code_unit_item(u.cur_unit, code_unit_before(u, st))
}

/// Where lowering starts: nothing declared, and an empty module.
pub open spec fn nothing_lowered() -> Lowered {
    Lowered {
        env: seq![Map::empty()],
        module: ModuleView { globals: Seq::empty(), functions: Seq::empty() },
    }
}

/// The module that a compilation unit is lowered to where the static
/// rules accept it.
pub open spec fn code_program(u: CompUnit) -> ModuleView {
    code_unit(u, nothing_lowered()).module
}

} // verus!
