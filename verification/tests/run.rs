use std::collections::HashMap;
use sysyc::ir::{BinOp, Inst, Module, Value};
use sysyc::pipeline::compile_source;

/// A machine that runs a module: memory is a row of cells, an address the
/// number of a cell.
struct Machine<'a> {
    module: &'a Module,
    memory: Vec<i64>,
    globals: Vec<i64>,
    calls: Vec<String>,
}

fn binary(op: BinOp, a: i64, b: i64) -> i64 {
    match op {
        BinOp::Add => a.wrapping_add(b),
        BinOp::Sub => a.wrapping_sub(b),
        BinOp::Mul => a.wrapping_mul(b),
        BinOp::Div => a.wrapping_div(b),
        BinOp::Mod => a.wrapping_rem(b),
        BinOp::Eq => (a == b) as i64,
        BinOp::Ne => (a != b) as i64,
        BinOp::Lt => (a < b) as i64,
        BinOp::Gt => (a > b) as i64,
        BinOp::Le => (a <= b) as i64,
        BinOp::Ge => (a >= b) as i64,
    }
}

impl<'a> Machine<'a> {
    fn new(module: &'a Module) -> Machine<'a> {
        let mut memory = Vec::new();
        let mut globals = Vec::new();
        for g in &module.globals {
            globals.push(memory.len() as i64);
            memory.extend_from_slice(&g.init);
        }
        Machine { module, memory, globals, calls: Vec::new() }
    }

    fn call(&mut self, name: &str, args: &[i64]) -> Option<i64> {
        self.calls.push(name.to_string());
        let f = self.module.functions.iter().find(|f| f.name == name).unwrap();
        let mut temps: HashMap<(usize, usize), i64> = HashMap::new();
        let mut handed: Vec<i64> = Vec::new();
        let mut block = 0;
        let mut steps = 0;
        loop {
            for (i, inst) in f.blocks[block].insts.iter().enumerate() {
                steps += 1;
                assert!(steps < 1_000_000, "the program does not stop");
                let get = |v: &Value, temps: &HashMap<(usize, usize), i64>| match v {
                    Value::Const(c) => *c,
                    Value::Temp(b, i) => temps[&(*b, *i)],
                    Value::Param(p) => args[*p],
                    Value::Global(g) => self.globals[*g],
                };
                match inst {
                    Inst::Alloc(n) => {
                        temps.insert((block, i), self.memory.len() as i64);
                        self.memory.extend(std::iter::repeat(0).take(*n as usize));
                    }
                    Inst::Binary(op, l, r) => {
                        temps.insert((block, i), binary(*op, get(l, &temps), get(r, &temps)));
                    }
                    Inst::Load(a) => {
                        temps.insert((block, i), self.memory[get(a, &temps) as usize]);
                    }
                    Inst::Store(v, a) => {
                        let (v, a) = (get(v, &temps), get(a, &temps));
                        self.memory[a as usize] = v;
                    }
                    Inst::Offset(base, index, stride) => {
                        temps.insert((block, i), get(base, &temps) + get(index, &temps) * stride);
                    }
                    Inst::Arg(v) => {
                        let v = get(v, &temps);
                        handed.push(v);
                    }
                    Inst::Call(callee, count) => {
                        let values = handed.split_off(handed.len() - count);
                        if let Some(v) = self.call(callee, &values) {
                            temps.insert((block, i), v);
                        }
                    }
                    Inst::Branch(c, then_to, else_to) => {
                        block = if get(c, &temps) != 0 { *then_to } else { *else_to };
                        break;
                    }
                    Inst::Jump(to) => {
                        block = *to;
                        break;
                    }
                    Inst::Return(v) => return v.as_ref().map(|v| get(v, &temps)),
                }
            }
        }
    }
}

/// What `main` returns, and the functions that were called, in order.
fn run(src: &str) -> (i64, Vec<String>) {
    let module = compile_source(src.as_bytes()).unwrap().module;
    let mut machine = Machine::new(&module);
    let result = machine.call("main", &[]).unwrap();
    (result, machine.calls)
}

#[test]
fn and_skips_its_right_side_after_zero() {
    let (result, calls) =
        run("int f() { return 0; } int g() { return 1; } int main() { return f() && g(); }");
    assert_eq!(result, 0);
    assert_eq!(calls, vec!["main", "f"]);
}

#[test]
fn and_evaluates_its_right_side_after_nonzero() {
    let (result, calls) =
        run("int f() { return 3; } int g() { return 5; } int main() { return f() && g(); }");
    assert_eq!(result, 1);
    assert_eq!(calls, vec!["main", "f", "g"]);
}

#[test]
fn or_skips_its_right_side_after_nonzero() {
    let (result, calls) =
        run("int f() { return 7; } int g() { return 0; } int main() { return f() || g(); }");
    assert_eq!(result, 1);
    assert_eq!(calls, vec!["main", "f"]);
}

#[test]
fn or_evaluates_its_right_side_after_zero() {
    let (result, calls) =
        run("int f() { return 0; } int g() { return 0; } int main() { return f() || g(); }");
    assert_eq!(result, 0);
    assert_eq!(calls, vec!["main", "f", "g"]);
}

#[test]
fn end_to_end_example_returns_one() {
    let (result, _) =
        run("int main(){ int a[3]; a[1] = 2 + 3 * 2; if (a[1] == 8) return 1; else return 0; }");
    assert_eq!(result, 1);
}

#[test]
fn inner_name_is_used_until_its_block_ends() {
    let (result, _) = run(
        "int x = 1;\n\
         int main() { int r = x; int x = 20; r = r + x; { int x = 300; r = r + x; } return r + x; }",
    );
    assert_eq!(result, 1 + 20 + 300 + 20);
}

#[test]
fn break_and_continue_in_nested_loops() {
    let (result, _) = run(
        "int main() {\n\
           int i = 0; int sum = 0;\n\
           while (i < 4) {\n\
             i = i + 1;\n\
             int j = 0;\n\
             while (1) {\n\
               j = j + 1;\n\
               if (j == 2) continue;\n\
               if (j > 3) break;\n\
               sum = sum + 10;\n\
             }\n\
             if (i == 3) break;\n\
             sum = sum + 1;\n\
           }\n\
           return sum;\n\
         }",
    );
    assert_eq!(result, 3 * 20 + 2);
}

#[test]
fn recursion_and_arithmetic() {
    let (result, _) = run(
        "int fact(int n) { if (n <= 1) return 1; return n * fact(n - 1); }\n\
         int main() { return fact(10) % 1000 - -7 / 2; }",
    );
    assert_eq!(result, 3628800 % 1000 + 3);
}

#[test]
fn arrays_are_laid_out_row_by_row() {
    let (result, _) = run(
        "const int k[2][3] = {{1, 2, 3}, {4, 5}};\n\
         int g[3][2] = {{10}, {20, 30}};\n\
         int sum(int a[][2], int rows) {\n\
           int s = 0; int i = 0;\n\
           while (i < rows) { s = s + a[i][0] + a[i][1]; i = i + 1; }\n\
           return s;\n\
         }\n\
         int row(int a[]) { return a[0] * 100 + a[1]; }\n\
         int main() {\n\
           int l[2][2] = {{1, 2}, {3}};\n\
           l[1][1] = k[1][1] + k[0][2];\n\
           g[2][1] = 7;\n\
           return sum(g, 3) * 10000 + row(l[1]) + sum(l, 2) * 1000000 + k[1][2];\n\
         }",
    );
    assert_eq!(result, 67 * 10000 + 308 + 14 * 1000000);
}

#[test]
fn function_without_return_yields_zero() {
    let (result, _) = run("int f() { } int main() { return f() + 5; }");
    assert_eq!(result, 5);
}

#[test]
fn parameters_can_be_assigned() {
    let (result, _) = run("int f(int n) { n = n + 1; return n; } int main() { return f(41); }");
    assert_eq!(result, 42);
}

#[test]
fn nested_calls_take_their_own_arguments() {
    let (result, calls) = run(
        "int sub(int a, int b) { return a - b; }\n\
         int main() { const int k[3] = {5, 6, 7}; return sub(sub(100, k[1]), sub(k[2], 2)); }",
    );
    assert_eq!(result, 94 - 5);
    assert_eq!(calls, vec!["main", "sub", "sub", "sub"]);
}
