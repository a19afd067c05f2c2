use sysyc::error::SemanticError;
use sysyc::ir::{BasicBlock, BinOp, Function, Inst, Module, Value};
use sysyc::parser::SyntaxError;
use sysyc::pipeline::{compile_source, CompileError};
use sysyc::token::{IntegerFault, LexicalError, Span};

fn compile(src: &str) -> Module {
    compile_source(src.as_bytes()).unwrap().module
}

fn rejected(src: &str) -> SemanticError {
    match compile_source(src.as_bytes()) {
        Err(CompileError::Semantic(e)) => e,
        other => panic!("not rejected by the rules: {:?}", other),
    }
}

fn is_terminator(inst: &Inst) -> bool {
    matches!(inst, Inst::Branch(..) | Inst::Jump(..) | Inst::Return(..))
}

fn assert_well_formed(module: &Module) {
    for f in &module.functions {
        assert!(!f.blocks.is_empty());
        for block in &f.blocks {
            assert!(!block.insts.is_empty(), "empty block in {}", f.name);
            let (last, rest) = block.insts.split_last().unwrap();
            assert!(is_terminator(last));
            assert!(rest.iter().all(|i| !is_terminator(i)));
            match last {
                Inst::Branch(_, a, b) => assert!(*a < f.blocks.len() && *b < f.blocks.len()),
                Inst::Jump(a) => assert!(*a < f.blocks.len()),
                _ => {}
            }
        }
    }
}

fn function<'a>(module: &'a Module, name: &str) -> &'a Function {
    module.functions.iter().find(|f| f.name == name).unwrap()
}

fn insts(f: &Function) -> Vec<&Inst> {
    f.blocks.iter().flat_map(|b: &BasicBlock| b.insts.iter()).collect()
}

#[test]
fn empty_function_returns_by_itself() {
    let m = compile("int main() { } void f() { }");
    assert_eq!(function(&m, "main").blocks, vec![BasicBlock {
        insts: vec![Inst::Return(Some(Value::Const(0)))]
    }]);
    assert_eq!(function(&m, "f").blocks, vec![BasicBlock { insts: vec![Inst::Return(None)] }]);
    assert_well_formed(&m);
}

#[test]
fn statements_after_a_return_start_a_block_of_their_own() {
    let m = compile("int main() { return 1; return 2; }");
    let f = function(&m, "main");
    assert_eq!(f.blocks.len(), 3);
    assert_eq!(f.blocks[0].insts, vec![Inst::Return(Some(Value::Const(1)))]);
    assert_eq!(f.blocks[1].insts, vec![Inst::Return(Some(Value::Const(2)))]);
    assert_eq!(f.blocks[2].insts, vec![Inst::Return(Some(Value::Const(0)))]);
    assert_well_formed(&m);
}

#[test]
fn every_block_ends_in_exactly_one_transfer() {
    let m = compile(
        "int g[4] = {1, 2};\n\
         int f(int n, int a[]) { while (n) { if (a[n] && n > 2) break; else continue; } return n; }\n\
         void h() { { ; } if (1) return; while (0) { } }\n\
         int main() { int i = 0; while (i < 3) { i = i + 1; if (i == 2) continue; h(); } return f(i, g) || !i; }",
    );
    assert_well_formed(&m);
    assert_eq!(m.functions.len(), 3);
}

#[test]
fn same_name_twice_in_one_block() {
    assert_eq!(rejected("int main() { int a; int a; }"), SemanticError::DuplicateDeclaration);
    assert_eq!(rejected("int a; const int a = 1;"), SemanticError::DuplicateDeclaration);
    assert_eq!(rejected("int f; int f() { }"), SemanticError::DuplicateDeclaration);
    assert_eq!(rejected("void f(int a, int a) { }"), SemanticError::DuplicateDeclaration);
}

#[test]
fn same_name_in_a_nested_block() {
    assert_well_formed(&compile("int a; int main() { int a; { int a; { int a; } } return a; }"));
    assert_well_formed(&compile("void f(int a) { int a; }"));
}

#[test]
fn name_is_declared_after_its_initializer() {
    assert_eq!(rejected("int main() { int a = a; }"), SemanticError::UndefinedIdentifier);
    assert_well_formed(&compile("int a = 1; int main() { int a = a; return a; }"));
}

#[test]
fn undeclared_names() {
    assert_eq!(rejected("int main() { return x; }"), SemanticError::UndefinedIdentifier);
    assert_eq!(rejected("int main() { x = 1; }"), SemanticError::UndefinedIdentifier);
    assert_eq!(rejected("int main() { { int x; } return x; }"), SemanticError::UndefinedIdentifier);
    assert_eq!(rejected("int main() { return f(); }"), SemanticError::UndefinedFunction);
    assert_eq!(rejected("int main() { int f; return f(); }"), SemanticError::UndefinedFunction);
    assert_eq!(rejected("int main() { return g(); } int g() { }"), SemanticError::UndefinedFunction);
}

#[test]
fn function_can_call_itself() {
    assert_well_formed(&compile("int f(int n) { if (n) return f(n - 1); return 0; }"));
}

#[test]
fn argument_count_has_to_match() {
    let f = "int f(int a) { return a; } ";
    assert_eq!(
        rejected(&format!("{}int main() {{ return f(1, 2); }}", f)),
        SemanticError::ArgumentCountMismatch
    );
    assert_eq!(
        rejected(&format!("{}int main() {{ return f(); }}", f)),
        SemanticError::ArgumentCountMismatch
    );
}

#[test]
fn arguments_have_to_fit_the_parameters() {
    let f = "int f(int a, int b[]) { return a; } int v; int w[2][3]; ";
    assert_well_formed(&compile(&format!("{}int main() {{ int c[3]; return f(1, c); }}", f)));
    assert_well_formed(&compile(&format!("{}int main() {{ return f(w[1][2], w[0]); }}", f)));
    assert_eq!(
        rejected(&format!("{}int main() {{ return f(w, w); }}", f)),
        SemanticError::TypeMismatch
    );
    assert_eq!(
        rejected(&format!("{}int main() {{ return f(1, v); }}", f)),
        SemanticError::TypeMismatch
    );
}

#[test]
fn array_length_is_folded() {
    let m = compile("const int a[2+3] = {1, 2, 3}; int main() { return a[4]; }");
    assert_eq!(m.globals.len(), 1);
    assert_eq!(m.globals[0].name, "a");
    assert_eq!(m.globals[0].init, vec![1, 2, 3, 0, 0]);
}

#[test]
fn array_length_has_to_be_constant() {
    assert_eq!(rejected("int main() { int n = 5; int b[n]; }"), SemanticError::NotConstant);
    assert_eq!(rejected("int n; int b[n];"), SemanticError::NotConstant);
    assert_eq!(rejected("int f() { } int b[f()];"), SemanticError::NotConstant);
    assert_well_formed(&compile("const int n = 5; int main() { int b[n * 2]; return 0; }"));
}

#[test]
fn array_shape_has_to_be_allowed() {
    assert_eq!(rejected("int a[0 - 1];"), SemanticError::TypeMismatch);
    assert_eq!(rejected("int a[65536][65536];"), SemanticError::TypeMismatch);
    assert_eq!(rejected("int a[0][65536][65536];"), SemanticError::TypeMismatch);
    let m = compile("int a[0]; int b[2147483647 - 2147483640];");
    assert_eq!(m.globals[0].init.len(), 0);
    assert_eq!(m.globals[1].init.len(), 7);
}

#[test]
fn constants_are_folded_at_compile_time() {
    assert_eq!(rejected("const int a = 1 / 0;"), SemanticError::DivisionByZero);
    assert_eq!(rejected("int v; const int a = v;"), SemanticError::NotConstant);
    assert_eq!(rejected("int v = 1; int w = v;"), SemanticError::NotConstant);
    let m = compile("const int a = 6, b = a * 7; int c = b + 1; int main() { return b; }");
    assert_eq!(m.globals.len(), 1);
    assert_eq!(m.globals[0].init, vec![43]);
    assert_eq!(function(&m, "main").blocks[0].insts, vec![Inst::Return(Some(Value::Const(42)))]);
}

#[test]
fn initializer_follows_the_shape() {
    let m = compile("const int a[2][3] = {{1}, {2, 3}}; int b[2][2] = {{}, {4}}; int c[3];");
    assert_eq!(m.globals[0].init, vec![1, 0, 0, 2, 3, 0]);
    assert_eq!(m.globals[1].init, vec![0, 0, 4, 0]);
    assert_eq!(m.globals[2].init, vec![0, 0, 0]);
    assert_eq!(rejected("int a[2] = {1, 2, 3};"), SemanticError::TypeMismatch);
    assert_eq!(rejected("int a[2][2] = {1, 2};"), SemanticError::TypeMismatch);
    assert_eq!(rejected("int a[2] = 1;"), SemanticError::TypeMismatch);
    assert_eq!(rejected("int a = {1};"), SemanticError::TypeMismatch);
    assert_eq!(rejected("int main() { int a[2] = {{1}}; }"), SemanticError::TypeMismatch);
}

#[test]
fn loop_control_outside_a_loop() {
    assert_eq!(rejected("int main() { break; }"), SemanticError::BreakOutsideLoop);
    assert_eq!(rejected("int main() { continue; }"), SemanticError::ContinueOutsideLoop);
    assert_eq!(
        rejected("int main() { while (1) { } if (1) break; }"),
        SemanticError::BreakOutsideLoop
    );
    assert_eq!(
        rejected("int main() { { continue; } while (1) { } }"),
        SemanticError::ContinueOutsideLoop
    );
}

#[test]
fn loop_control_goes_to_the_innermost_loop() {
    let m = compile("int main() { while (1) { while (2) { break; continue; } break; } }");
    let f = function(&m, "main");
    assert_well_formed(&m);
    // Blocks 1 to 3 are the outer loop's condition, body and exit; blocks 4 to 6 the inner loop's.
    assert_eq!(f.blocks[1].insts, vec![Inst::Branch(Value::Const(1), 2, 3)]);
    assert_eq!(f.blocks[4].insts, vec![Inst::Branch(Value::Const(2), 5, 6)]);
    assert_eq!(f.blocks[5].insts, vec![Inst::Jump(6)]);
    assert_eq!(f.blocks[7].insts, vec![Inst::Jump(4)]);
    assert_eq!(f.blocks[6].insts, vec![Inst::Jump(3)]);
}

#[test]
fn return_has_to_fit_the_function() {
    assert_eq!(rejected("void f() { return 1; }"), SemanticError::ReturnTypeMismatch);
    assert_well_formed(&compile("void f() { return; } int g() { return; }"));
}

#[test]
fn operands_have_to_be_numbers() {
    assert_eq!(rejected("int main() { int a[2]; return a + 1; }"), SemanticError::TypeMismatch);
    assert_eq!(rejected("void f() { } int main() { return f() + 1; }"), SemanticError::TypeMismatch);
    assert_eq!(rejected("void f() { } int main() { return f(); }"), SemanticError::TypeMismatch);
    assert_eq!(rejected("int main() { int a[2]; if (a) return 1; }"), SemanticError::TypeMismatch);
    assert_eq!(rejected("int main() { int a; return a[0]; }"), SemanticError::TypeMismatch);
    assert_eq!(rejected("int main() { int a[2]; return a[a]; }"), SemanticError::TypeMismatch);
    assert_eq!(rejected("int main() { return main; }"), SemanticError::TypeMismatch);
    assert_well_formed(&compile("void f() { } int main() { f(); int a[2]; a; return 0; }"));
}

#[test]
fn only_variables_can_be_assigned() {
    assert_eq!(rejected("const int a = 1; int main() { a = 2; }"), SemanticError::TypeMismatch);
    assert_eq!(
        rejected("const int a[2] = {1, 2}; int main() { a[0] = 2; }"),
        SemanticError::TypeMismatch
    );
    assert_eq!(rejected("int main() { int a[2]; a = 2; }"), SemanticError::TypeMismatch);
    assert_eq!(rejected("int main() { main = 2; }"), SemanticError::TypeMismatch);
    assert_well_formed(&compile("void f(int a, int b[][2]) { a = 1; b[3][1] = a; }"));
}

#[test]
fn first_error_in_source_order_is_reported() {
    assert_eq!(rejected("int main() { return x + f(); }"), SemanticError::UndefinedIdentifier);
    assert_eq!(rejected("int main() { return f() + x; }"), SemanticError::UndefinedFunction);
    assert_eq!(rejected("int main() { break; return x; }"), SemanticError::BreakOutsideLoop);
    assert_eq!(rejected("int a[x]; int a;"), SemanticError::UndefinedIdentifier);
    assert_eq!(rejected("int a; int a[x];"), SemanticError::DuplicateDeclaration);
}

#[test]
fn indices_step_by_the_cells_of_the_dimensions_after_them() {
    let m = compile("int main() { int a[2][3][4]; a[1][2][3] = 5; return 0; }");
    let block = &function(&m, "main").blocks[0].insts;
    assert_eq!(
        block,
        &vec![
            Inst::Alloc(24),
            Inst::Offset(Value::Temp(0, 0), Value::Const(1), 12),
            Inst::Offset(Value::Temp(0, 1), Value::Const(2), 4),
            Inst::Offset(Value::Temp(0, 2), Value::Const(3), 1),
            Inst::Store(Value::Const(5), Value::Temp(0, 3)),
            Inst::Return(Some(Value::Const(0))),
        ]
    );
}

#[test]
fn array_parameter_is_reached_through_its_pointer() {
    let m = compile("int f(int a[][5]) { return a[2][3]; }");
    let block = &function(&m, "f").blocks[0].insts;
    assert_eq!(
        block,
        &vec![
            Inst::Alloc(1),
            Inst::Store(Value::Param(0), Value::Temp(0, 0)),
            Inst::Load(Value::Temp(0, 0)),
            Inst::Offset(Value::Temp(0, 2), Value::Const(2), 5),
            Inst::Offset(Value::Temp(0, 3), Value::Const(3), 1),
            Inst::Load(Value::Temp(0, 4)),
            Inst::Return(Some(Value::Temp(0, 5))),
        ]
    );
}

#[test]
fn right_side_of_a_logical_operator_has_a_block_of_its_own() {
    let m = compile("int f() { return 0; } int g() { return 1; } int main() { return f() && g(); }");
    let f = function(&m, "main");
    assert_well_formed(&m);
    assert_eq!(
        f.blocks[0].insts,
        vec![
            Inst::Call("f".to_string(), 0),
            Inst::Alloc(1),
            Inst::Store(Value::Const(0), Value::Temp(0, 1)),
            Inst::Branch(Value::Temp(0, 0), 1, 2),
        ]
    );
    assert_eq!(
        f.blocks[1].insts,
        vec![
            Inst::Call("g".to_string(), 0),
            Inst::Binary(BinOp::Ne, Value::Temp(1, 0), Value::Const(0)),
            Inst::Store(Value::Temp(1, 1), Value::Temp(0, 1)),
            Inst::Jump(2),
        ]
    );
    assert_eq!(f.blocks[2].insts[0], Inst::Load(Value::Temp(0, 1)));
    let calls_g = |b: &BasicBlock| b.insts.iter().any(|i| matches!(i, Inst::Call(n, _) if n == "g"));
    assert!(!calls_g(&f.blocks[0]) && !calls_g(&f.blocks[2]));
}

#[test]
fn end_to_end_example() {
    let m = compile(
        "int main(){ int a[3]; a[1] = 2 + 3 * 2; if (a[1] == 8) return 1; else return 0; }",
    );
    assert_well_formed(&m);
    let f = function(&m, "main");
    assert_eq!(
        f.blocks[0].insts,
        vec![
            Inst::Alloc(3),
            Inst::Offset(Value::Temp(0, 0), Value::Const(1), 1),
            Inst::Store(Value::Const(8), Value::Temp(0, 1)),
            Inst::Offset(Value::Temp(0, 0), Value::Const(1), 1),
            Inst::Load(Value::Temp(0, 3)),
            Inst::Binary(BinOp::Eq, Value::Temp(0, 4), Value::Const(8)),
            Inst::Branch(Value::Temp(0, 5), 1, 3),
        ]
    );
    assert_eq!(f.blocks[1].insts, vec![Inst::Return(Some(Value::Const(1)))]);
    assert_eq!(f.blocks[3].insts, vec![Inst::Return(Some(Value::Const(0)))]);
    let returns: Vec<&Inst> =
        insts(f).into_iter().filter(|i| matches!(i, Inst::Return(_))).collect();
    assert!(returns.contains(&&Inst::Return(Some(Value::Const(1)))));
    assert!(returns.contains(&&Inst::Return(Some(Value::Const(0)))));
}

#[test]
fn first_failing_stage_reports() {
    assert_eq!(
        compile_source(b"int main() { return 09; }"),
        Err(CompileError::Lexical(
            LexicalError::InvalidInteger(IntegerFault::InvalidDigit),
            Span { start: 20, end: 22 }
        ))
    );
    assert_eq!(
        compile_source(b"int main() { return $; }"),
        Err(CompileError::Lexical(LexicalError::InvalidToken, Span { start: 20, end: 21 }))
    );
    assert_eq!(
        compile_source(b"int main() { return x"),
        Err(CompileError::Syntax(SyntaxError::UnexpectedEnd))
    );
    assert_eq!(
        compile_source(b"int main() { return x; }"),
        Err(CompileError::Semantic(SemanticError::UndefinedIdentifier))
    );
}

#[test]
fn function_that_may_end_without_return_is_named() {
    let compiled = compile_source(
        b"int a() { } void b() { } int c() { return 1; } int d() { if (1) return 1; } int e() { return 1; ; }",
    )
    .unwrap();
    assert_eq!(compiled.missing_returns, vec!["a", "d", "e"]);
    let names: Vec<&str> = compiled.module.functions.iter().map(|f| f.name.as_str()).collect();
    assert_eq!(names, vec!["a", "b", "c", "d", "e"]);
    let params: Vec<usize> = compile("void f(int a, int b[]) { } int g() { }")
        .functions
        .iter()
        .map(|f| f.params)
        .collect();
    assert_eq!(params, vec![2, 0]);
}

#[test]
fn arguments_are_handed_over_in_order() {
    let m = compile("int f(int a, int b) { return a; } int main() { return f(1, f(2, 3)); }");
    assert_eq!(
        function(&m, "main").blocks[0].insts,
        vec![
            Inst::Arg(Value::Const(1)),
            Inst::Arg(Value::Const(2)),
            Inst::Arg(Value::Const(3)),
            Inst::Call("f".to_string(), 2),
            Inst::Arg(Value::Temp(0, 3)),
            Inst::Call("f".to_string(), 2),
            Inst::Return(Some(Value::Temp(0, 5))),
        ]
    );
}

#[test]
fn local_constant_array_gets_cells_of_the_function() {
    let m = compile("int main() { const int k[2] = {7}; return k[1]; }");
    assert_eq!(m.globals.len(), 0);
    assert_eq!(
        function(&m, "main").blocks[0].insts,
        vec![
            Inst::Alloc(2),
            Inst::Offset(Value::Temp(0, 0), Value::Const(0), 1),
            Inst::Store(Value::Const(7), Value::Temp(0, 1)),
            Inst::Offset(Value::Temp(0, 0), Value::Const(1), 1),
            Inst::Store(Value::Const(0), Value::Temp(0, 3)),
            Inst::Offset(Value::Temp(0, 0), Value::Const(1), 1),
            Inst::Load(Value::Temp(0, 5)),
            Inst::Return(Some(Value::Temp(0, 6))),
        ]
    );
}

#[test]
fn local_initializer_stores_cell_by_cell() {
    let m = compile("int main() { int a[2][2] = {{1}, {2, 3}}; return 0; }");
    let stores: Vec<&Inst> = function(&m, "main").blocks[0]
        .insts
        .iter()
        .filter(|i| matches!(i, Inst::Store(..)))
        .collect();
    assert_eq!(
        stores,
        vec![
            &Inst::Store(Value::Const(1), Value::Temp(0, 1)),
            &Inst::Store(Value::Const(0), Value::Temp(0, 3)),
            &Inst::Store(Value::Const(2), Value::Temp(0, 5)),
            &Inst::Store(Value::Const(3), Value::Temp(0, 7)),
        ]
    );
}
