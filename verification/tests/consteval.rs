use sysyc::ast::{CompUnit, Decl, DeclOrFuncDef, Exp, InitVal, VarDef};
use sysyc::consteval::{eval_binary, eval_const};
use sysyc::error::SemanticError;
use sysyc::ir::{BinOp, Value};
use sysyc::lexer::tokenize;
use sysyc::parser::parse;
use sysyc::scope::{Binding, Layout, SymbolTable};

/// The expression `text`, read as the initializer of a variable.
fn exp(text: &str) -> Exp {
    let src = format!("int probe = {};", text);
    let unit: CompUnit = parse(&tokenize(src.as_bytes()).unwrap()).unwrap();
    match unit.cur_unit {
        DeclOrFuncDef::Decl(d) => match *d {
            Decl::VarDecl(v) => match v.var_defs.into_iter().next().unwrap() {
                VarDef::Init(_, _, InitVal::Exp(e)) => *e,
                other => panic!("no scalar initializer: {:?}", other),
            },
            other => panic!("no variable: {:?}", other),
        },
        other => panic!("no declaration: {:?}", other),
    }
}

fn fold(text: &str) -> Result<i64, SemanticError> {
    let mut table = SymbolTable::new();
    table.declare("two".to_string(), Binding::Const(2)).unwrap();
    table
        .declare(
            "grid".to_string(),
            Binding::ConstArray(
                vec![2, 3],
                vec![10, 11, 12, 20, 21, 22],
                Layout { slot: Value::Global(0), strides: vec![3, 1] },
            ),
        )
        .unwrap();
    table
        .declare(
            "v".to_string(),
            Binding::Var(vec![], Layout { slot: Value::Temp(0, 0), strides: vec![] }),
        )
        .unwrap();
    eval_const(&exp(text), &table)
}

#[test]
fn arithmetic_follows_precedence() {
    assert_eq!(fold("2 + 3 * 2"), Ok(8));
    assert_eq!(fold("(2 + 3) * 2"), Ok(10));
    assert_eq!(fold("10 - 4 - 3"), Ok(3));
    assert_eq!(fold("-two + +two * 010"), Ok(14));
}

#[test]
fn division_and_remainder_truncate_toward_zero() {
    assert_eq!(fold("7 / 2"), Ok(3));
    assert_eq!(fold("-7 / 2"), Ok(-3));
    assert_eq!(fold("7 / -2"), Ok(-3));
    assert_eq!(fold("-7 % 2"), Ok(-1));
    assert_eq!(fold("7 % -2"), Ok(1));
}

#[test]
fn division_by_zero_is_reported() {
    assert_eq!(fold("1 / 0"), Err(SemanticError::DivisionByZero));
    assert_eq!(fold("1 % (two - 2)"), Err(SemanticError::DivisionByZero));
}

#[test]
fn arithmetic_wraps_around() {
    assert_eq!(fold("9223372036854775807 + 1"), Ok(i64::MIN));
    assert_eq!(fold("(-9223372036854775807 - 1) / -1"), Ok(i64::MIN));
    assert_eq!(fold("(-9223372036854775807 - 1) % -1"), Ok(0));
    assert_eq!(fold("4611686018427387904 * 2"), Ok(i64::MIN));
    assert_eq!(eval_binary(BinOp::Sub, i64::MIN, 1), Ok(i64::MAX));
}

#[test]
fn comparisons_and_logic_yield_one_or_zero() {
    assert_eq!(fold("1 < 2"), Ok(1));
    assert_eq!(fold("2 <= 1"), Ok(0));
    assert_eq!(fold("3 == 3 != 0"), Ok(1));
    assert_eq!(fold("!5"), Ok(0));
    assert_eq!(fold("!0"), Ok(1));
    assert_eq!(fold("5 && 7"), Ok(1));
    assert_eq!(fold("0 || 0"), Ok(0));
}

#[test]
fn logic_leaves_the_right_side_alone_where_the_left_decides() {
    assert_eq!(fold("0 && 1 / 0"), Ok(0));
    assert_eq!(fold("1 || v"), Ok(1));
    assert_eq!(fold("1 && 1 / 0"), Err(SemanticError::DivisionByZero));
    assert_eq!(fold("0 || v"), Err(SemanticError::NotConstant));
}

#[test]
fn names_of_constants_are_constant() {
    assert_eq!(fold("two * two"), Ok(4));
    assert_eq!(fold("grid[1][2]"), Ok(22));
    assert_eq!(fold("grid[0][two - 1]"), Ok(11));
}

#[test]
fn anything_else_is_not_constant() {
    assert_eq!(fold("v"), Err(SemanticError::NotConstant));
    assert_eq!(fold("f(1)"), Err(SemanticError::NotConstant));
    assert_eq!(fold("grid[1]"), Err(SemanticError::NotConstant));
    assert_eq!(fold("grid[2][0]"), Err(SemanticError::NotConstant));
    assert_eq!(fold("grid[0][3]"), Err(SemanticError::NotConstant));
    assert_eq!(fold("two[0]"), Err(SemanticError::NotConstant));
    assert_eq!(fold("nothing"), Err(SemanticError::UndefinedIdentifier));
}

#[test]
fn leftmost_failure_wins() {
    assert_eq!(fold("v + 1 / 0"), Err(SemanticError::NotConstant));
    assert_eq!(fold("1 / 0 + v"), Err(SemanticError::DivisionByZero));
}
