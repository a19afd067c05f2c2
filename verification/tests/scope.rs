use sysyc::ast::FuncType;
use sysyc::error::SemanticError;
use sysyc::ir::Value;
use sysyc::loops::{LoopStack, LoopTarget};
use sysyc::scope::{Binding, Layout, ParamShape, SymbolTable};

fn var(slot: usize) -> Binding {
    Binding::Var(vec![], Layout { slot: Value::Temp(0, slot), strides: vec![] })
}

#[test]
fn inner_declaration_shadows_until_its_block_ends() {
    let mut table = SymbolTable::new();
    assert_eq!(table.declare("x".to_string(), Binding::Const(1)), Ok(()));
    table.enter_scope();
    assert_eq!(table.resolve(&"x".to_string()), Ok(&Binding::Const(1)));
    assert_eq!(table.declare("x".to_string(), Binding::Const(2)), Ok(()));
    assert_eq!(table.resolve(&"x".to_string()), Ok(&Binding::Const(2)));
    table.enter_scope();
    assert_eq!(table.declare("y".to_string(), var(0)), Ok(()));
    assert_eq!(table.resolve(&"x".to_string()), Ok(&Binding::Const(2)));
    table.exit_scope();
    assert_eq!(table.resolve(&"x".to_string()), Ok(&Binding::Const(2)));
    table.exit_scope();
    assert_eq!(table.resolve(&"x".to_string()), Ok(&Binding::Const(1)));
}

#[test]
fn same_name_twice_in_one_block_is_rejected() {
    let mut table = SymbolTable::new();
    assert_eq!(table.declare("x".to_string(), var(0)), Ok(()));
    assert_eq!(
        table.declare("x".to_string(), var(1)),
        Err(SemanticError::DuplicateDeclaration)
    );
    assert_eq!(table.resolve(&"x".to_string()), Ok(&var(0)));
    table.enter_scope();
    assert_eq!(table.declare("x".to_string(), var(2)), Ok(()));
}

#[test]
fn leaving_a_block_forgets_its_names() {
    let mut table = SymbolTable::new();
    table.enter_scope();
    assert_eq!(table.declare("t".to_string(), var(0)), Ok(()));
    assert!(table.declares(&"t".to_string()));
    table.exit_scope();
    assert!(!table.declares(&"t".to_string()));
    assert_eq!(table.resolve(&"t".to_string()), Err(SemanticError::UndefinedIdentifier));
}

#[test]
fn outermost_scope_is_never_left() {
    let mut table = SymbolTable::new();
    assert_eq!(table.depth(), 1);
    assert_eq!(
        table.declare(
            "f".to_string(),
            Binding::Func(FuncType::Void, vec![ParamShape { is_array: true, dims: vec![4] }])
        ),
        Ok(())
    );
    table.exit_scope();
    assert_eq!(table.depth(), 1);
    assert!(table.declares(&"f".to_string()));
    table.enter_scope();
    assert_eq!(table.depth(), 2);
}

#[test]
fn undeclared_name_is_undefined() {
    let table = SymbolTable::new();
    assert_eq!(table.resolve(&"x".to_string()), Err(SemanticError::UndefinedIdentifier));
}

#[test]
fn break_and_continue_go_to_the_innermost_loop() {
    let mut loops = LoopStack::new();
    assert_eq!(loops.break_target(), Err(SemanticError::BreakOutsideLoop));
    assert_eq!(loops.continue_target(), Err(SemanticError::ContinueOutsideLoop));
    loops.push(LoopTarget { cond: 1, exit: 3 });
    loops.push(LoopTarget { cond: 5, exit: 7 });
    assert_eq!(loops.break_target(), Ok(7));
    assert_eq!(loops.continue_target(), Ok(5));
    loops.pop();
    assert_eq!(loops.break_target(), Ok(3));
    assert_eq!(loops.continue_target(), Ok(1));
    loops.pop();
    loops.pop();
    assert_eq!(loops.break_target(), Err(SemanticError::BreakOutsideLoop));
}
