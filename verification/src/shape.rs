//! The shapes of arrays: reading their dimensions and laying them out in
//! row-major order.

use vstd::prelude::*;
use crate::ast::{ConstExp, Exp};
use crate::consteval::{const_exp, eval_const};
use crate::error::SemanticError;
use crate::scope::SymbolTable;
use crate::semantics::{
    cells, const_dims, dim_values, dims_after, inner_exp, span, stride, MAX_CELLS,
};

verus! {

/// Whether no dimension is negative.
pub open spec fn no_negative(dims: Seq<i64>) -> bool {
    forall|i: int| 0 <= i < dims.len() ==> #[trigger] dims[i] >= 0
}

/// Whether `strides` are the strides of an array with the dimensions
/// `dims`.
pub open spec fn strides_of(dims: Seq<i64>, strides: Seq<i64>) -> bool {
    &&& strides.len() == dims.len()
    &&& forall|k: int| 0 <= k < dims.len() ==> #[trigger] strides[k] == stride(dims, k)
}

/// The shape of an array, read and laid out.
pub struct Shape {
    pub dims: Vec<i64>,
    pub strides: Vec<i64>,
    pub cells: i64,
}

impl Shape {
    /// Whether the strides and the number of cells are those of the
    /// dimensions, which are not negative and do not span too many cells.
    pub open spec fn wf(&self) -> bool {
        &&& no_negative(self.dims@)
        &&& span(self.dims@) <= MAX_CELLS
        &&& strides_of(self.dims@, self.strides@)
        &&& self.cells == cells(self.dims@)
        &&& 0 <= self.cells <= MAX_CELLS
    }
}

impl Shape {
    /// How many cells the part of the array has that is reached after
    /// `level` indices.
    pub fn cells_from(&self, level: usize) -> (c: i64)
        requires
            self.wf(),
            level <= self.dims@.len(),
        ensures
            c == cells(self.dims@.subrange(level as int, self.dims@.len() as int)),
            0 <= c <= MAX_CELLS,
    {
        proof {
            let part = self.dims@.subrange(level as int, self.dims@.len() as int);
            assert(no_negative(part)) by {
                assert forall|i: int| 0 <= i < part.len() implies #[trigger] part[i] >= 0 by {
                    assert(part[i] == self.dims@[level + i]);
                }
            }
            lemma_cells_span(part);
            lemma_span_grows(self.dims@, level as int);
        }
        if level == 0 {
            proof {
                assert(self.dims@.subrange(0, self.dims@.len() as int) =~= self.dims@);
            }
            self.cells
        } else {
            self.strides[level - 1]
        }
    }
}

/// Dimensions that are not negative have no more cells than they span.
pub proof fn lemma_cells_span(dims: Seq<i64>)
    requires
        no_negative(dims),
    ensures
        0 <= cells(dims) <= span(dims),
        1 <= span(dims),
    decreases dims.len(),
{
    if dims.len() > 0 {
        let rest = dims.drop_first();
        assert(no_negative(rest)) by {
            assert forall|i: int| 0 <= i < rest.len() implies #[trigger] rest[i] >= 0 by {
                assert(rest[i] == dims[i + 1]);
            }
        }
        lemma_cells_span(rest);
        let d = dims[0] as int;
        let c = cells(rest);
        let s = span(rest);
        assert(d >= 0);
        if d > 0 {
            assert(0 <= d * c <= d * s && d * s >= 1) by (nonlinear_arith)
                requires
                    d >= 1,
                    0 <= c <= s,
                    1 <= s,
            ;
        } else {
            assert(d * c == 0) by (nonlinear_arith)
                requires
                    d == 0,
            ;
        }
    }
}

/// A copy of the numbers.
pub fn copy_numbers(numbers: &Vec<i64>) -> (copy: Vec<i64>)
    ensures
        copy@ == numbers@,
{
    let mut copy: Vec<i64> = Vec::new();
    let mut i: usize = 0;
    while i < numbers.len()
        invariant
            i <= numbers@.len(),
            copy@ == numbers@.subrange(0, i as int),
        decreases numbers@.len() - i,
    {
        copy.push(numbers[i]);
        proof {
            assert(copy@ =~= numbers@.subrange(0, i + 1));
        }
        i = i + 1;
    }
    proof {
        assert(numbers@.subrange(0, i as int) =~= numbers@);
    }
    copy
}

/// Folds the expression of a constant expression.
pub fn eval_const_exp(c: &ConstExp, table: &SymbolTable) -> (r: Result<i64, SemanticError>)
    requires
        table.wf(),
    ensures
        r == const_exp(inner_exp(*c), table.env()),
{
    match c {
        ConstExp::Exp(e) => eval_const(e, table),
    }
}

/// Reads the numbers of the dimension expressions.
fn eval_dim_values(es: &Vec<ConstExp>, table: &SymbolTable) -> (r: Result<Vec<i64>, SemanticError>)
    requires
        table.wf(),
    ensures
        match r {
            Ok(dims) => dim_values(es@, table.env()) == Ok::<Seq<i64>, SemanticError>(dims@)
                && no_negative(dims@),
            Err(e) => dim_values(es@, table.env()) == Err::<Seq<i64>, SemanticError>(e),
        },
{
    let mut dims: Vec<i64> = Vec::new();
    let mut k: usize = 0;
    proof {
        assert(es@.subrange(0, es@.len() as int) =~= es@);
    }
    while k < es.len()
        invariant
            table.wf(),
            k <= es@.len(),
            no_negative(dims@),
            dim_values(es@, table.env()) == dims_after(
                dims@,
                es@.subrange(k as int, es@.len() as int),
                table.env(),
            ),
        decreases es@.len() - k,
    {
        proof {
            let rest = es@.subrange(k as int, es@.len() as int);
            assert(rest[0] == es@[k as int]);
            assert(rest.drop_first() =~= es@.subrange(k + 1, es@.len() as int));
        }
        let d = eval_const_exp(&es[k], table)?;
        if d < 0 {
            return Err(SemanticError::TypeMismatch);
        }
        dims.push(d);
        k = k + 1;
    }
    Ok(dims)
}

/// Lays the dimensions out: the stride of each index and the number of
/// cells. Fails where they span too many cells.
fn lay_out(dims: Vec<i64>) -> (r: Option<Shape>)
    requires
        no_negative(dims@),
    ensures
        match r {
            Some(shape) => shape.wf() && shape.dims@ == dims@,
            None => span(dims@) > MAX_CELLS,
        },
{
    let n = dims.len();
    let mut strides: Vec<i64> = Vec::new();
    let mut i: usize = 0;
    while i < n
        invariant
            i <= n,
            strides@.len() == i,
        decreases n - i,
    {
        strides.push(1);
        i = i + 1;
    }
    let mut k: usize = n;
    let mut count: i64 = 1;
    let mut bound: i64 = 1;
    proof {
        assert(dims@.subrange(n as int, n as int) =~= Seq::<i64>::empty());
    }
    while k > 0
        invariant
            n == dims@.len(),
            k <= n,
            strides@.len() == n,
            no_negative(dims@),
            count == cells(dims@.subrange(k as int, n as int)),
            bound == span(dims@.subrange(k as int, n as int)),
            0 <= count <= bound <= MAX_CELLS,
            1 <= bound,
            forall|j: int| k <= j < n ==> #[trigger] strides@[j] == stride(dims@, j),
        decreases k,
    {
        k = k - 1;
        let ghost tail = dims@.subrange(k + 1, n as int);
        let ghost whole = dims@.subrange(k as int, n as int);
        proof {
            assert(whole[0] == dims@[k as int]);
            assert(whole.drop_first() =~= tail);
        }
        strides.set(k, count);
        let d = dims[k];
        if d > 0 {
            proof {
                assert(d * bound >= bound && d * count <= d * bound && d * count >= 0)
                    by (nonlinear_arith)
                    requires
                        d >= 1,
                        0 <= count <= bound,
                ;
            }
            match bound.checked_mul(d) {
                Some(wider) => {
                    if wider > MAX_CELLS {
                        proof {
                            lemma_span_grows(dims@, k as int);
                        }
                        return None;
                    }
                    bound = wider;
                    count = count * d;
                },
                None => {
                    proof {
                        lemma_span_grows(dims@, k as int);
                    }
                    return None;
                },
            }
        } else {
            count = 0;
        }
    }
    proof {
        assert(dims@.subrange(0, n as int) =~= dims@);
    }
    Some(Shape { dims, strides, cells: count })
}

/// The dimensions from some index on span no more than all of them.
pub proof fn lemma_span_grows(dims: Seq<i64>, k: int)
    requires
        no_negative(dims),
        0 <= k <= dims.len(),
    ensures
        1 <= span(dims.subrange(k, dims.len() as int)) <= span(dims),
    decreases k,
{
    let n = dims.len() as int;
    let from_k = dims.subrange(k, n);
    assert(no_negative(from_k)) by {
        assert forall|i: int| 0 <= i < from_k.len() implies #[trigger] from_k[i] >= 0 by {
            assert(from_k[i] == dims[k + i]);
        }
    }
    lemma_cells_span(from_k);
    if k == 0 {
        assert(from_k =~= dims);
    } else {
        lemma_span_grows(dims, k - 1);
        let wider = dims.subrange(k - 1, n);
        assert(wider.drop_first() =~= from_k);
        assert(wider[0] == dims[k - 1]);
        let d = dims[k - 1] as int;
        let s = span(from_k);
        if d > 0 {
            assert(d * s >= s) by (nonlinear_arith)
                requires
                    d >= 1,
                    s >= 1,
            ;
        }
    }
}

/// Reads the dimensions after a name and lays them out. Each has to be
/// constant and not negative, and together they may not span too many
/// cells.
pub fn eval_shape(es: &Vec<ConstExp>, table: &SymbolTable) -> (r: Result<Shape, SemanticError>)
    requires
        table.wf(),
    ensures
        match r {
            Ok(shape) => const_dims(es@, table.env()) == Ok::<Seq<i64>, SemanticError>(
                shape.dims@,
            ) && shape.wf(),
            Err(e) => const_dims(es@, table.env()) == Err::<Seq<i64>, SemanticError>(e),
        },
{
    let dims = eval_dim_values(es, table)?;
    match lay_out(dims) {
        Some(shape) => Ok(shape),
        None => Err(SemanticError::TypeMismatch),
    }
}

} // verus!
