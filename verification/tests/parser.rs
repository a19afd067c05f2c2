use sysyc::ast::{
    AddExp, Block, BlockItem, BType, CompUnit, ConstDecl, ConstDef, ConstExp, ConstInitVal, Decl,
    DeclOrFuncDef, EqExp, Exp, FuncDef, FuncFParam, FuncType, InitVal, LAndExp, LOrExp, LVal,
    MulExp, PrimaryExp, RelExp, Stmt, UnaryExp, UnaryOp, VarDecl, VarDef,
};
use sysyc::lexer::tokenize;
use sysyc::parser::{parse, SyntaxError};
use sysyc::token::{Span, Token};

fn parse_text(src: &str) -> Result<CompUnit, SyntaxError> {
    parse(&tokenize(src.as_bytes()).unwrap())
}

fn primary(p: PrimaryExp) -> UnaryExp {
    UnaryExp::PrimaryExp(Box::new(p))
}

fn mul_of(u: UnaryExp) -> MulExp {
    MulExp::UnaryExp(Box::new(u))
}

fn add_of(m: MulExp) -> AddExp {
    AddExp::MulExp(Box::new(m))
}

fn rel_of(a: AddExp) -> RelExp {
    RelExp::AddExp(Box::new(a))
}

fn eq_of(r: RelExp) -> EqExp {
    EqExp::RelExp(Box::new(r))
}

fn land_of(e: EqExp) -> LAndExp {
    LAndExp::EqExp(Box::new(e))
}

fn lor_of(l: LAndExp) -> LOrExp {
    LOrExp::LAndExp(Box::new(l))
}

fn exp_of_add(a: AddExp) -> Exp {
    Exp::LOrExp(Box::new(lor_of(land_of(eq_of(rel_of(a))))))
}

fn exp_of_unary(u: UnaryExp) -> Exp {
    exp_of_add(add_of(mul_of(u)))
}

fn num(n: i64) -> UnaryExp {
    primary(PrimaryExp::Number(n))
}

fn var(name: &str) -> UnaryExp {
    primary(PrimaryExp::LVal(LVal { ident: name.to_string(), indices: vec![] }))
}

fn main_with(items: Vec<BlockItem>) -> CompUnit {
    CompUnit {
        prev_unit: None,
        cur_unit: DeclOrFuncDef::FuncDef(Box::new(FuncDef {
            func_type: FuncType::Int,
            ident: "main".to_string(),
            params: vec![],
            block: Block { items },
        })),
    }
}

fn stmt(s: Stmt) -> BlockItem {
    BlockItem::Stmt(Box::new(s))
}

#[test]
fn product_binds_tighter_than_sum() {
    // 2 + 3 * 2
    let e = exp_of_add(AddExp::Add(
        Box::new(add_of(mul_of(num(2)))),
        Box::new(MulExp::Mul(Box::new(mul_of(num(3))), Box::new(num(2)))),
    ));
    assert_eq!(
        parse_text("int main() { return 2 + 3 * 2; }"),
        Ok(main_with(vec![stmt(Stmt::Return(Some(e)))]))
    );
}

#[test]
fn binary_operators_associate_to_the_left() {
    // a - b - c
    let e = exp_of_add(AddExp::Sub(
        Box::new(AddExp::Sub(Box::new(add_of(mul_of(var("a")))), Box::new(mul_of(var("b"))))),
        Box::new(mul_of(var("c"))),
    ));
    assert_eq!(
        parse_text("int main() { a - b - c; }"),
        Ok(main_with(vec![stmt(Stmt::Exp(Some(e)))]))
    );
}

#[test]
fn logic_ladder_orders_or_and_equality_relation() {
    // a || b && c == d < e
    let rel = RelExp::Lt(Box::new(rel_of(add_of(mul_of(var("d"))))), Box::new(add_of(mul_of(var("e")))));
    let eq = EqExp::Eq(Box::new(eq_of(rel_of(add_of(mul_of(var("c")))))), Box::new(rel));
    let and = LAndExp::And(Box::new(land_of(eq_of(rel_of(add_of(mul_of(var("b"))))))), Box::new(eq));
    let or = LOrExp::Or(Box::new(lor_of(land_of(eq_of(rel_of(add_of(mul_of(var("a")))))))), Box::new(and));
    assert_eq!(
        parse_text("int main() { a || b && c == d < e; }"),
        Ok(main_with(vec![stmt(Stmt::Exp(Some(Exp::LOrExp(Box::new(or)))))]))
    );
}

#[test]
fn unary_operators_calls_and_parentheses() {
    // -f(1, x) + !(2)
    let call = UnaryExp::Call("f".to_string(), vec![exp_of_unary(num(1)), exp_of_unary(var("x"))]);
    let neg = UnaryExp::UnaryOp(UnaryOp::Sub, Box::new(call));
    let paren = primary(PrimaryExp::Paren(Box::new(exp_of_unary(num(2)))));
    let not = UnaryExp::UnaryOp(UnaryOp::Not, Box::new(paren));
    let e = exp_of_add(AddExp::Add(Box::new(add_of(mul_of(neg))), Box::new(mul_of(not))));
    assert_eq!(
        parse_text("int main() { -f(1, x) + !(2); }"),
        Ok(main_with(vec![stmt(Stmt::Exp(Some(e)))]))
    );
}

#[test]
fn else_joins_the_nearest_if() {
    let inner = Stmt::If(
        exp_of_unary(var("b")),
        Box::new(Stmt::Break),
        Some(Box::new(Stmt::Continue)),
    );
    let outer = Stmt::If(exp_of_unary(var("a")), Box::new(inner), None);
    assert_eq!(
        parse_text("int main() { if (a) if (b) break; else continue; }"),
        Ok(main_with(vec![stmt(outer)]))
    );
}

#[test]
fn assignment_and_expression_statement_share_a_start() {
    let lval = LVal { ident: "a".to_string(), indices: vec![exp_of_unary(num(1))] };
    let read = primary(PrimaryExp::LVal(LVal {
        ident: "a".to_string(),
        indices: vec![exp_of_unary(num(1))],
    }));
    assert_eq!(
        parse_text("int main() { a[1] = 2; a[1]; ; }"),
        Ok(main_with(vec![
            stmt(Stmt::Assign(lval, exp_of_unary(num(2)))),
            stmt(Stmt::Exp(Some(exp_of_unary(read)))),
            stmt(Stmt::Exp(None)),
        ]))
    );
}

#[test]
fn declarations_with_dimensions_and_initializers() {
    let dim = |n: i64| ConstExp::Exp(Box::new(exp_of_unary(num(n))));
    let konst = Decl::ConstDecl(Box::new(ConstDecl {
        btype: BType::Int,
        const_defs: vec![ConstDef {
            ident: "a".to_string(),
            dimensions: vec![dim(2)],
            init_val: ConstInitVal::Array(vec![
                ConstInitVal::Exp(Box::new(dim(1))),
                ConstInitVal::Exp(Box::new(dim(2))),
            ]),
        }],
    }));
    let vars = Decl::VarDecl(Box::new(VarDecl {
        btype: BType::Int,
        var_defs: vec![
            VarDef::Uninit("x".to_string(), vec![]),
            VarDef::Init(
                "y".to_string(),
                vec![dim(1), dim(2)],
                InitVal::Array(vec![InitVal::Array(vec![]), InitVal::Exp(Box::new(exp_of_unary(num(3))))]),
            ),
        ],
    }));
    let unit = CompUnit {
        prev_unit: Some(Box::new(CompUnit { prev_unit: None, cur_unit: DeclOrFuncDef::Decl(Box::new(konst)) })),
        cur_unit: DeclOrFuncDef::Decl(Box::new(vars)),
    };
    assert_eq!(parse_text("const int a[2] = {1, 2}; int x, y[1][2] = {{}, 3};"), Ok(unit));
}

#[test]
fn function_with_scalar_and_array_parameters() {
    let dim = ConstExp::Exp(Box::new(exp_of_unary(num(4))));
    let f = FuncDef {
        func_type: FuncType::Void,
        ident: "f".to_string(),
        params: vec![
            FuncFParam { btype: BType::Int, ident: "n".to_string(), is_array: false, dimensions: vec![] },
            FuncFParam { btype: BType::Int, ident: "m".to_string(), is_array: true, dimensions: vec![dim] },
        ],
        block: Block {
            items: vec![stmt(Stmt::While(
                exp_of_unary(var("n")),
                Box::new(Stmt::Block(Block { items: vec![stmt(Stmt::Return(None))] })),
            ))],
        },
    };
    assert_eq!(
        parse_text("void f(int n, int m[][4]) { while (n) { return; } }"),
        Ok(CompUnit { prev_unit: None, cur_unit: DeclOrFuncDef::FuncDef(Box::new(f)) })
    );
}

#[test]
fn unexpected_token_is_named_with_its_span() {
    assert_eq!(
        parse_text("int main() { return 1 +; }"),
        Err(SyntaxError::UnexpectedToken { found: Token::SemiColon, span: Span { start: 23, end: 24 } })
    );
    assert_eq!(
        parse_text("int 3;"),
        Err(SyntaxError::UnexpectedToken { found: Token::IntConst(3), span: Span { start: 4, end: 5 } })
    );
}

#[test]
fn unclosed_construct_is_an_unexpected_end() {
    assert_eq!(parse_text("int main() { return 1;"), Err(SyntaxError::UnexpectedEnd));
    assert_eq!(parse_text(""), Err(SyntaxError::UnexpectedEnd));
    assert_eq!(parse_text("int a[2"), Err(SyntaxError::UnexpectedEnd));
}
