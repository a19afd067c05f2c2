use sysyc::builder::FunctionBuilder;
use sysyc::ir::{BasicBlock, BinOp, Inst, Value};
use sysyc::lower::emit_binary;

#[test]
fn instruction_is_named_by_its_place() {
    let mut b = FunctionBuilder::new();
    assert_eq!(b.emit(Inst::Alloc(1)), Value::Temp(0, 0));
    assert_eq!(b.emit(Inst::Load(Value::Temp(0, 0))), Value::Temp(0, 1));
    let next = b.new_block();
    assert_eq!(next, 1);
    b.terminate(Inst::Jump(next), next);
    assert_eq!(b.emit(Inst::Alloc(2)), Value::Temp(1, 0));
    let blocks = b.finish(Inst::Return(None));
    assert_eq!(
        blocks,
        vec![
            BasicBlock {
                insts: vec![Inst::Alloc(1), Inst::Load(Value::Temp(0, 0)), Inst::Jump(1)]
            },
            BasicBlock { insts: vec![Inst::Alloc(2), Inst::Return(None)] },
        ]
    );
}

#[test]
fn constant_operands_are_folded() {
    let mut b = FunctionBuilder::new();
    assert_eq!(emit_binary(BinOp::Mul, Value::Const(3), Value::Const(2), &mut b), Value::Const(6));
    assert_eq!(emit_binary(BinOp::Lt, Value::Const(3), Value::Const(2), &mut b), Value::Const(0));
    assert_eq!(
        emit_binary(BinOp::Div, Value::Const(3), Value::Const(0), &mut b),
        Value::Temp(0, 0)
    );
    assert_eq!(
        emit_binary(BinOp::Add, Value::Param(0), Value::Const(2), &mut b),
        Value::Temp(0, 1)
    );
    let blocks = b.finish(Inst::Return(Some(Value::Temp(0, 1))));
    assert_eq!(
        blocks[0].insts,
        vec![
            Inst::Binary(BinOp::Div, Value::Const(3), Value::Const(0)),
            Inst::Binary(BinOp::Add, Value::Param(0), Value::Const(2)),
            Inst::Return(Some(Value::Temp(0, 1))),
        ]
    );
}
