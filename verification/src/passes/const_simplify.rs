//! Constant expression simplification pass.
//!
//! This pass identifies expressions in the AST that can be evaluated at compile-time and simplifies
//! them.  Expressions that cannot be simplified (e.g. calls of non-const functions or use of
//! non-const variables) will be left as-is.
//!
//! This is a crucial part of STD compilation, as STD has no mechanism for using variables at
//! runtime.  For other formats, it is moreso just an optimization.
//!
//! Call [`Visitor::finish`] at the end to obtain errors; These will mostly be type errors that
//! prevent evaluation of an operation that could otherwise be computed at compile-time.
//!
//! The pass does no floating-point arithmetic itself.  It looks the results up in a table, and
//! lists the operations that the table does not have.  As long as one is missing, the tree is not
//! final and [`Visitor::finish`] fails with the list.  A caller adds the results to the table and
//! runs the pass again until nothing is missing.

use crate::error::{CompileError, Diagnostic, Error, ErrorV};
use crate::float32::F32;
use crate::pos::{Sp, Span, Spanned};
use crate::script::{
    body_view, cond_view, decl_view, decls_view, expr_view, exprs_view, field_seq_view, ident_view,
    item_view, items_view, lemma_exprs_view, lemma_field_seq_view, lemma_metas_view,
    lemma_stmts_view, meta_view, metas_view, stmt_view, stmts_view, BinopKind, Block, BodyV, Cond,
    CondV, Expr, ExprV, Fields, Item, ItemV, Meta, MetaV, Script, ScriptV, StmtBody, StmtV,
    UnopKind, Var, VarV,
};
use crate::type_system::{result_view, ScalarType};
use crate::value::ScalarValue;
use vstd::prelude::*;

verus! {

/// An arithmetic operation on two numbers: one of `+ - * / %`.
#[derive(Debug, Copy, Clone, PartialEq, Eq, Hash, Structural)]
pub struct FloatOp {
    pub op: BinopKind,
    pub a: F32,
    pub b: F32,
}

/// The results of arithmetic operations on numbers.
pub type FloatTable = Vec<(FloatOp, F32)>;

/// The result that a table gives of an operation.
pub open spec fn float_result(table: Seq<(FloatOp, F32)>, op: FloatOp) -> Option<F32>
    decreases table.len(),
{
    if table.len() == 0 {
        None
    } else if table.last().0 == op {
        Some(table.last().1)
    } else {
        float_result(table.drop_last(), op)
    }
}

fn find_float_result(table: &FloatTable, op: FloatOp) -> (r: Option<F32>)
    ensures
        r == float_result(table@, op),
{
    let mut n: usize = table.len();
    assert(table@.take(n as int) =~= table@);
    while n > 0
        invariant
            n <= table@.len(),
            float_result(table@, op) == float_result(table@.take(n as int), op),
        decreases n,
    {
        assert(table@.take(n as int).drop_last() =~= table@.take(n - 1));
        if table[n - 1].0 == op {
            return Some(table[n - 1].1);
        }
        n = n - 1;
    }
    None
}

// =============================================================================

impl F32 {
    pub open spec fn is_nan_spec(self) -> bool {
        self.exponent() == 255 && self.mantissa() != 0
    }

    /// An integer by which numbers other than NaN are ordered.  Both zeros have the same.
    pub open spec fn order_key(self) -> int {
        if self.negative() {
            0x8000_0000 - self.bits
        } else {
            self.bits as int
        }
    }

    fn is_nan(self) -> (r: bool)
        ensures
            r == self.is_nan_spec(),
    {
        (self.bits / 0x80_0000) % 0x100 == 255 && self.bits % 0x80_0000 != 0
    }

    fn key(self) -> (r: i64)
        ensures
            r == self.order_key(),
    {
        if self.bits >= 0x8000_0000 {
            0x8000_0000 - self.bits as i64
        } else {
            self.bits as i64
        }
    }

    pub open spec fn neg_spec(self) -> F32 {
        F32 {
            bits: if self.negative() {
                (self.bits - 0x8000_0000) as u32
            } else {
                (self.bits + 0x8000_0000) as u32
            },
        }
    }
}

/// Division that drops the fraction.
pub open spec fn trunc_div(a: int, b: int) -> int {
    if a >= 0 && b > 0 {
        a / b
    } else if a < 0 && b < 0 {
        (-a) / (-b)
    } else if a < 0 {
        -((-a) / b)
    } else {
        -(a / (-b))
    }
}

/// The remainder that goes with [`trunc_div`]; it has the sign of the dividend.
pub open spec fn trunc_rem(a: int, b: int) -> int {
    if a >= 0 && b > 0 {
        a % b
    } else if a < 0 && b < 0 {
        -((-a) % (-b))
    } else if a < 0 {
        -((-a) % b)
    } else {
        a % (-b)
    }
}

pub open spec fn bool_int(b: bool) -> i32 {
    if b {
        1
    } else {
        0
    }
}

impl UnopKind {
    pub open spec fn eval_int_spec(self, x: i32) -> i32 {
        match self {
            UnopKind::Neg => if x == i32::MIN {
                x
            } else {
                (-x) as i32
            },
            UnopKind::Not => bool_int(x == 0),
        }
    }

    pub fn const_eval_int(&self, x: i32) -> (r: i32)
        ensures
            r == self.eval_int_spec(x),
    {
        match self {
            UnopKind::Neg => if x == i32::MIN {
                x
            } else {
                -x
            },
            UnopKind::Not => int_of_bool(x == 0),
        }
    }

    pub open spec fn eval_float_spec(self, x: F32) -> Option<F32> {
        match self {
            UnopKind::Neg => Some(x.neg_spec()),
            UnopKind::Not => None,
        }
    }

    pub fn const_eval_float(&self, x: F32) -> (r: Option<F32>)
        ensures
            r == self.eval_float_spec(x),
    {
        match self {
            UnopKind::Neg => if x.bits >= 0x8000_0000 {
                Some(F32 { bits: x.bits - 0x8000_0000 })
            } else {
                Some(F32 { bits: x.bits + 0x8000_0000 })
            },
            UnopKind::Not => None,
        }
    }
}

/// The value of an operation on a constant, or the error that the types do not fit.
pub open spec fn unop_eval(op: Sp<UnopKind>, b: Sp<ScalarValue>) -> Result<ScalarValue, ErrorV> {
    match b.value {
        ScalarValue::Int(x) => Ok(ScalarValue::Int(op.value.eval_int_spec(x))),
        ScalarValue::Float(x) => match op.value.eval_float_spec(x) {
            Some(y) => Ok(ScalarValue::Float(y)),
            None => Err(
                Diagnostic::BadOperand {
                    op: op.span,
                    operand: Spanned { span: b.span, value: ScalarType::Float },
                },
            ),
        },
    }
}

impl Sp<UnopKind> {
    pub fn const_eval(&self, b: Sp<ScalarValue>) -> (r: Result<ScalarValue, Error>)
        ensures
            result_view(r) == unop_eval(*self, b),
    {
        match b.value {
            ScalarValue::Int(x) => Ok(ScalarValue::Int(self.value.const_eval_int(x))),
            ScalarValue::Float(x) => match self.value.const_eval_float(x) {
                Some(y) => Ok(ScalarValue::Float(y)),
                None => Err(
                    Diagnostic::BadOperand {
                        op: self.span,
                        operand: Spanned { span: b.span, value: ScalarType::Float },
                    },
                ),
            },
        }
    }
}

/// What becomes of an operation on two constants.
#[derive(Debug, Copy, Clone, PartialEq, Eq, Structural)]
pub enum Evaluated {
    Value(ScalarValue),
    /// It takes floating-point arithmetic whose result is not known.
    Pending(FloatOp),
}

impl BinopKind {
    /// Whether the operation has no value because it divides by zero.
    pub open spec fn divides_by_zero(self, b: i32) -> bool {
        (self is Div || self is Rem) && b == 0
    }

    pub open spec fn eval_int_spec(self, a: i32, b: i32) -> i32 {
        match self {
            BinopKind::Add => i32::wrapping_add(a, b),
            BinopKind::Sub => i32::wrapping_sub(a, b),
            BinopKind::Mul => i32::wrapping_mul(a, b),
            BinopKind::Div => if a == i32::MIN && b == -1 {
                i32::MIN
            } else {
                trunc_div(a as int, b as int) as i32
            },
            BinopKind::Rem => trunc_rem(a as int, b as int) as i32,
            BinopKind::Eq => bool_int(a == b),
            BinopKind::Ne => bool_int(a != b),
            BinopKind::Lt => bool_int(a < b),
            BinopKind::Le => bool_int(a <= b),
            BinopKind::Gt => bool_int(a > b),
            BinopKind::Ge => bool_int(a >= b),
            BinopKind::LogicOr => if a == 0 {
                b
            } else {
                a
            },
            BinopKind::LogicAnd => if a == 0 {
                0
            } else {
                b
            },
            BinopKind::BitXor => a ^ b,
            BinopKind::BitAnd => a & b,
            BinopKind::BitOr => a | b,
        }
    }

    pub fn const_eval_int(&self, a: i32, b: i32) -> (r: i32)
        requires
            !self.divides_by_zero(b),
        ensures
            r == self.eval_int_spec(a, b),
    {
        match self {
            BinopKind::Add => a.wrapping_add(b),
            BinopKind::Sub => a.wrapping_sub(b),
            BinopKind::Mul => a.wrapping_mul(b),
            BinopKind::Div => {
                proof {
                    lemma_div_in_range(a, b);
                }
                match a.checked_div(b) {
                    Some(q) => q,
                    None => i32::MIN,
                }
            },
            BinopKind::Rem => {
                proof {
                    lemma_rem_in_range(a, b);
                }
                match a.checked_rem(b) {
                    Some(q) => q,
                    None => 0,
                }
            },
            BinopKind::Eq => int_of_bool(a == b),
            BinopKind::Ne => int_of_bool(a != b),
            BinopKind::Lt => int_of_bool(a < b),
            BinopKind::Le => int_of_bool(a <= b),
            BinopKind::Gt => int_of_bool(a > b),
            BinopKind::Ge => int_of_bool(a >= b),
            BinopKind::LogicOr => if a == 0 {
                b
            } else {
                a
            },
            BinopKind::LogicAnd => if a == 0 {
                0
            } else {
                b
            },
            BinopKind::BitXor => a ^ b,
            BinopKind::BitAnd => a & b,
            BinopKind::BitOr => a | b,
        }
    }

    /// The value of an operation on two numbers; `None` if it is not for numbers.
    pub open spec fn eval_float_spec(self, table: Seq<(FloatOp, F32)>, a: F32, b: F32) -> Option<
        Evaluated,
    > {
        let ordered = !a.is_nan_spec() && !b.is_nan_spec();
        let ka = a.order_key();
        let kb = b.order_key();
        match self {
            BinopKind::Add | BinopKind::Sub | BinopKind::Mul | BinopKind::Div | BinopKind::Rem => {
                let op = FloatOp { op: self, a, b };
                match float_result(table, op) {
                    Some(x) => Some(Evaluated::Value(ScalarValue::Float(x))),
                    None => Some(Evaluated::Pending(op)),
                }
            },
            BinopKind::Eq => Some(Evaluated::Value(ScalarValue::Int(bool_int(ordered && ka == kb)))),
            BinopKind::Ne => Some(
                Evaluated::Value(ScalarValue::Int(bool_int(!(ordered && ka == kb)))),
            ),
            BinopKind::Lt => Some(Evaluated::Value(ScalarValue::Int(bool_int(ordered && ka < kb)))),
            BinopKind::Le => Some(Evaluated::Value(ScalarValue::Int(bool_int(ordered && ka <= kb)))),
            BinopKind::Gt => Some(Evaluated::Value(ScalarValue::Int(bool_int(ordered && ka > kb)))),
            BinopKind::Ge => Some(Evaluated::Value(ScalarValue::Int(bool_int(ordered && ka >= kb)))),
            BinopKind::LogicOr | BinopKind::LogicAnd | BinopKind::BitXor | BinopKind::BitAnd
            | BinopKind::BitOr => None,
        }
    }

    pub fn const_eval_float(&self, table: &FloatTable, a: F32, b: F32) -> (r: Option<Evaluated>)
        ensures
            r == self.eval_float_spec(table@, a, b),
    {
        let ordered: bool = !a.is_nan() && !b.is_nan();
        let ka: i64 = a.key();
        let kb: i64 = b.key();
        let truth: bool = match self {
            BinopKind::Add | BinopKind::Sub | BinopKind::Mul | BinopKind::Div | BinopKind::Rem => {
                let op = FloatOp { op: *self, a, b };
                return match find_float_result(table, op) {
                    Some(x) => Some(Evaluated::Value(ScalarValue::Float(x))),
                    None => Some(Evaluated::Pending(op)),
                };
            },
            BinopKind::Eq => ordered && ka == kb,
            BinopKind::Ne => !(ordered && ka == kb),
            BinopKind::Lt => ordered && ka < kb,
            BinopKind::Le => ordered && ka <= kb,
            BinopKind::Gt => ordered && ka > kb,
            BinopKind::Ge => ordered && ka >= kb,
            BinopKind::LogicOr | BinopKind::LogicAnd | BinopKind::BitXor | BinopKind::BitAnd
            | BinopKind::BitOr => return None,
        };
        Some(Evaluated::Value(ScalarValue::Int(int_of_bool(truth))))
    }
}

fn int_of_bool(b: bool) -> (r: i32)
    ensures
        r == bool_int(b),
{
    if b {
        1
    } else {
        0
    }
}

proof fn lemma_div_in_range(a: i32, b: i32)
    requires
        b != 0,
    ensures
        !(a == i32::MIN && b == -1) ==> i32::MIN <= trunc_div(a as int, b as int) <= i32::MAX,
        a == i32::MIN && b == -1 ==> trunc_div(a as int, b as int) > i32::MAX,
{
    let x: int = if a < 0 {
        -a
    } else {
        a as int
    };
    let y: int = if b < 0 {
        -b
    } else {
        b as int
    };
    assert(0 <= x / y <= x) by (nonlinear_arith)
        requires
            x >= 0,
            y >= 1,
    ;
    if y >= 2 {
        assert(x / y <= x / 2) by (nonlinear_arith)
            requires
                x >= 0,
                y >= 2,
        ;
    } else {
        assert(x / 1 == x);
    }
    assert(0int / y == 0) by (nonlinear_arith)
        requires
            y >= 1,
    ;
}

proof fn lemma_rem_in_range(a: i32, b: i32)
    requires
        b != 0,
    ensures
        i32::MIN <= trunc_rem(a as int, b as int) <= i32::MAX,
        b == -1 ==> trunc_rem(a as int, b as int) == 0,
        a == 0 ==> trunc_rem(a as int, b as int) == 0,
{
    let x: int = if a < 0 {
        -a
    } else {
        a as int
    };
    let y: int = if b < 0 {
        -b
    } else {
        b as int
    };
    assert(0 <= x % y < y && x % y <= x) by (nonlinear_arith)
        requires
            x >= 0,
            y >= 1,
    ;
}

/// The value of an operation on two constants, or the error that it has none.
pub open spec fn binop_eval(
    table: Seq<(FloatOp, F32)>,
    op: Sp<BinopKind>,
    a: Sp<ScalarValue>,
    b: Sp<ScalarValue>,
) -> Result<Evaluated, ErrorV> {
    match (a.value, b.value) {
        (ScalarValue::Int(x), ScalarValue::Int(y)) => if op.value.divides_by_zero(y) {
            Err(Diagnostic::DivisionByZero { op: op.span, divisor: b.span })
        } else {
            Ok(Evaluated::Value(ScalarValue::Int(op.value.eval_int_spec(x, y))))
        },
        (ScalarValue::Float(x), ScalarValue::Float(y)) => match op.value.eval_float_spec(
            table,
            x,
            y,
        ) {
            Some(v) => Ok(v),
            None => Err(
                Diagnostic::BadOperand {
                    op: op.span,
                    operand: Spanned { span: a.span, value: ScalarType::Float },
                },
            ),
        },
        _ => Err(
            Diagnostic::TypeMismatch {
                op: op.span,
                left: Spanned { span: a.span, value: a.value.ty_spec() },
                right: Spanned { span: b.span, value: b.value.ty_spec() },
            },
        ),
    }
}

impl Sp<BinopKind> {
    pub fn const_eval(&self, table: &FloatTable, a: Sp<ScalarValue>, b: Sp<ScalarValue>) -> (r:
        Result<Evaluated, Error>)
        ensures
            result_view(r) == binop_eval(table@, *self, a, b),
    {
        match (a.value, b.value) {
            (ScalarValue::Int(x), ScalarValue::Int(y)) => {
                let divides = match self.value {
                    BinopKind::Div | BinopKind::Rem => true,
                    _ => false,
                };
                if divides && y == 0 {
                    Err(Diagnostic::DivisionByZero { op: self.span, divisor: b.span })
                } else {
                    Ok(Evaluated::Value(ScalarValue::Int(self.value.const_eval_int(x, y))))
                }
            },
            (ScalarValue::Float(x), ScalarValue::Float(y)) => {
                match self.value.const_eval_float(table, x, y) {
                    Some(v) => Ok(v),
                    None => Err(
                        Diagnostic::BadOperand {
                            op: self.span,
                            operand: Spanned { span: a.span, value: ScalarType::Float },
                        },
                    ),
                }
            },
            _ => Err(
                Diagnostic::TypeMismatch {
                    op: self.span,
                    left: Spanned { span: a.span, value: a.value.ty() },
                    right: Spanned { span: b.span, value: b.value.ty() },
                },
            ),
        }
    }
}

// =============================================================================

/// What the pass has found so far.
#[verifier::ext_equal]
pub ghost struct SimpSt {
    pub errors: Seq<ErrorV>,
    pub pending: Seq<FloatOp>,
}

impl SimpSt {
    pub open spec fn fail(self, e: ErrorV) -> SimpSt {
        SimpSt { errors: self.errors.push(e), ..self }
    }

    pub open spec fn wait(self, op: FloatOp) -> SimpSt {
        SimpSt { pending: self.pending.push(op), ..self }
    }
}

/// The constant that a literal is.
pub open spec fn as_const(e: ExprV) -> Option<ScalarValue> {
    match e {
        ExprV::LitInt { value, .. } => Some(ScalarValue::Int(value)),
        ExprV::LitFloat { value } => Some(ScalarValue::Float(value)),
        _ => None,
    }
}

/// The literal of a constant.
pub open spec fn literal(v: ScalarValue) -> ExprV {
    match v {
        ScalarValue::Int(value) => ExprV::LitInt { value, hex: false },
        ScalarValue::Float(value) => ExprV::LitFloat { value },
    }
}

/// An expression whose parts have been simplified, with itself simplified.
pub open spec fn fold(table: Seq<(FloatOp, F32)>, st: SimpSt, e: ExprV) -> (ExprV, SimpSt) {
    match e {
        ExprV::Unop(op, b) => match as_const(b.value) {
            None => (e, st),
            Some(v) => match unop_eval(op, Spanned { span: b.span, value: v }) {
                Ok(v) => (literal(v), st),
                Err(err) => (e, st.fail(err)),
            },
        },
        ExprV::Binop(a, op, b) => match (as_const(a.value), as_const(b.value)) {
            (Some(x), Some(y)) => match binop_eval(
                table,
                op,
                Spanned { span: a.span, value: x },
                Spanned { span: b.span, value: y },
            ) {
                Ok(Evaluated::Value(v)) => (literal(v), st),
                Ok(Evaluated::Pending(op)) => (e, st.wait(op)),
                Err(err) => (e, st.fail(err)),
            },
            _ => (e, st),
        },
        ExprV::Ternary { cond, left, right } => match as_const(cond.value) {
            None => (e, st),
            Some(ScalarValue::Int(n)) => if n == 0 {
                (right.value, st)
            } else {
                (left.value, st)
            },
            Some(ScalarValue::Float(_)) => (
                e,
                st.fail(Diagnostic::TernaryCondNotInt { cond: cond.span }),
            ),
        },
        _ => (e, st),
    }
}

/// An expression with everything simplified that can be.
pub open spec fn simp_expr(table: Seq<(FloatOp, F32)>, st: SimpSt, e: Sp<ExprV>) -> (
    Sp<ExprV>,
    SimpSt,
)
    decreases e, 0nat,
{
    // simplify subexpressions first
    let (value, st) = match e.value {
        ExprV::Ternary { cond, left, right } => {
            let (cond, st) = simp_expr(table, st, *cond);
            let (left, st) = simp_expr(table, st, *left);
            let (right, st) = simp_expr(table, st, *right);
            (
                ExprV::Ternary {
                    cond: Box::new(cond),
                    left: Box::new(left),
                    right: Box::new(right),
                },
                st,
            )
        },
        ExprV::Binop(a, op, b) => {
            let (a, st) = simp_expr(table, st, *a);
            let (b, st) = simp_expr(table, st, *b);
            (ExprV::Binop(Box::new(a), op, Box::new(b)), st)
        },
        ExprV::Call { func, args } => {
            let (args, st) = simp_exprs(table, st, args, args.len());
            (ExprV::Call { func, args }, st)
        },
        ExprV::Unop(op, b) => {
            let (b, st) = simp_expr(table, st, *b);
            (ExprV::Unop(op, Box::new(b)), st)
        },
        value => (value, st),
    };
    // now inspect this expression
    let (value, st) = fold(table, st, value);
    (Spanned { span: e.span, value }, st)
}

/// The first `n` expressions of a list.
pub open spec fn simp_exprs(
    table: Seq<(FloatOp, F32)>,
    st: SimpSt,
    es: Seq<Sp<ExprV>>,
    n: nat,
) -> (Seq<Sp<ExprV>>, SimpSt)
    decreases es, n,
{
    if n == 0 || n > es.len() {
        (seq![], st)
    } else {
        let (out, st) = simp_exprs(table, st, es, (n - 1) as nat);
        let (e, st) = simp_expr(table, st, es[n - 1]);
        (out.push(e), st)
    }
}

pub open spec fn simp_cond(table: Seq<(FloatOp, F32)>, st: SimpSt, c: Sp<CondV>) -> (
    Sp<CondV>,
    SimpSt,
) {
    match c.value {
        CondV::Decrement(_) => (c, st),
        CondV::Expr(e) => {
            let (e, st) = simp_expr(table, st, e);
            (Spanned { span: c.span, value: CondV::Expr(e) }, st)
        },
    }
}

/// The first `n` variables of a declaration.
pub open spec fn simp_decls(
    table: Seq<(FloatOp, F32)>,
    st: SimpSt,
    vars: Seq<(Sp<VarV>, Option<Sp<ExprV>>)>,
    n: nat,
) -> (Seq<(Sp<VarV>, Option<Sp<ExprV>>)>, SimpSt)
    decreases n,
{
    if n == 0 {
        (seq![], st)
    } else {
        let (out, st) = simp_decls(table, st, vars, (n - 1) as nat);
        match vars[n - 1].1 {
            None => (out.push(vars[n - 1]), st),
            Some(e) => {
                let (e, st) = simp_expr(table, st, e);
                (out.push((vars[n - 1].0, Some(e))), st)
            },
        }
    }
}

pub open spec fn simp_body(table: Seq<(FloatOp, F32)>, st: SimpSt, body: Sp<BodyV>) -> (
    Sp<BodyV>,
    SimpSt,
)
    decreases body, 0nat,
{
    let (value, st) = match body.value {
        BodyV::CondJump { keyword, cond, jump } => {
            let (cond, st) = simp_cond(table, st, cond);
            (BodyV::CondJump { keyword, cond, jump }, st)
        },
        BodyV::Loop { block } => {
            let (block, st) = simp_block(table, st, block, block.len());
            (BodyV::Loop { block }, st)
        },
        BodyV::While { is_do_while, cond, block } => {
            let (cond, st) = simp_cond(table, st, cond);
            let (block, st) = simp_block(table, st, block, block.len());
            (BodyV::While { is_do_while, cond, block }, st)
        },
        BodyV::Expr(e) => {
            let (e, st) = simp_expr(table, st, e);
            (BodyV::Expr(e), st)
        },
        BodyV::Assignment { var, op, value } => {
            let (value, st) = simp_expr(table, st, value);
            (BodyV::Assignment { var, op, value }, st)
        },
        BodyV::Declaration { keyword, vars } => {
            let (vars, st) = simp_decls(table, st, vars, vars.len());
            (BodyV::Declaration { keyword, vars }, st)
        },
        value => (value, st),
    };
    (Spanned { span: body.span, value }, st)
}

/// The first `n` statements of a block.
pub open spec fn simp_block(
    table: Seq<(FloatOp, F32)>,
    st: SimpSt,
    block: Seq<Sp<StmtV>>,
    n: nat,
) -> (Seq<Sp<StmtV>>, SimpSt)
    decreases block, n,
{
    if n == 0 || n > block.len() {
        (seq![], st)
    } else {
        let (out, st) = simp_block(table, st, block, (n - 1) as nat);
        let stmt = block[n - 1];
        let (body, st) = simp_body(table, st, stmt.value.body);
        (out.push(Spanned { span: stmt.span, value: StmtV { body, ..stmt.value } }), st)
    }
}

pub open spec fn simp_meta(table: Seq<(FloatOp, F32)>, st: SimpSt, meta: Sp<MetaV>) -> (
    Sp<MetaV>,
    SimpSt,
)
    decreases meta, 0nat,
{
    let (value, st) = match meta.value {
        MetaV::Scalar(e) => {
            let (e, st) = simp_expr(table, st, e);
            (MetaV::Scalar(e), st)
        },
        MetaV::Array(items) => {
            let (items, st) = simp_metas(table, st, items, items.len());
            (MetaV::Array(items), st)
        },
        MetaV::Object(fields) => {
            let (v, st) = simp_fields(table, st, fields.value, fields.value.len());
            (MetaV::Object(Spanned { span: fields.span, value: v }), st)
        },
        MetaV::Variant { name, fields } => {
            let (v, st) = simp_fields(table, st, fields.value, fields.value.len());
            (MetaV::Variant { name, fields: Spanned { span: fields.span, value: v } }, st)
        },
    };
    (Spanned { span: meta.span, value }, st)
}

/// The first `n` values of a list.
pub open spec fn simp_metas(
    table: Seq<(FloatOp, F32)>,
    st: SimpSt,
    items: Seq<Sp<MetaV>>,
    n: nat,
) -> (Seq<Sp<MetaV>>, SimpSt)
    decreases items, n,
{
    if n == 0 || n > items.len() {
        (seq![], st)
    } else {
        let (out, st) = simp_metas(table, st, items, (n - 1) as nat);
        let (m, st) = simp_meta(table, st, items[n - 1]);
        (out.push(m), st)
    }
}

/// The first `n` fields of an object.
pub open spec fn simp_fields(
    table: Seq<(FloatOp, F32)>,
    st: SimpSt,
    fields: Seq<(Sp<Seq<char>>, Sp<MetaV>)>,
    n: nat,
) -> (Seq<(Sp<Seq<char>>, Sp<MetaV>)>, SimpSt)
    decreases fields, n,
{
    if n == 0 || n > fields.len() {
        (seq![], st)
    } else {
        let (out, st) = simp_fields(table, st, fields, (n - 1) as nat);
        let (m, st) = simp_meta(table, st, fields[n - 1].1);
        (out.push((fields[n - 1].0, m)), st)
    }
}

pub open spec fn simp_item(table: Seq<(FloatOp, F32)>, st: SimpSt, item: Sp<ItemV>) -> (
    Sp<ItemV>,
    SimpSt,
) {
    let (value, st) = match item.value {
        ItemV::Meta { keyword, name, fields } => {
            let (v, st) = simp_fields(table, st, fields.value, fields.value.len());
            (ItemV::Meta { keyword, name, fields: Spanned { span: fields.span, value: v } }, st)
        },
        ItemV::AnmScript { number, name, code } => {
            let (code, st) = simp_block(table, st, code, code.len());
            (ItemV::AnmScript { number, name, code }, st)
        },
        ItemV::Func { name, code: Some(code) } => {
            let (code, st) = simp_block(table, st, code, code.len());
            (ItemV::Func { name, code: Some(code) }, st)
        },
        value => (value, st),
    };
    (Spanned { span: item.span, value }, st)
}

/// The first `n` items of a script.
pub open spec fn simp_items(
    table: Seq<(FloatOp, F32)>,
    st: SimpSt,
    items: Seq<Sp<ItemV>>,
    n: nat,
) -> (Seq<Sp<ItemV>>, SimpSt)
    decreases n,
{
    if n == 0 {
        (seq![], st)
    } else {
        let (out, st) = simp_items(table, st, items, (n - 1) as nat);
        let (item, st) = simp_item(table, st, items[n - 1]);
        (out.push(item), st)
    }
}

pub open spec fn simp_script(table: Seq<(FloatOp, F32)>, st: SimpSt, script: ScriptV) -> (
    ScriptV,
    SimpSt,
) {
    let (items, st) = simp_items(table, st, script.items, script.items.len());
    (ScriptV { items, ..script }, st)
}

// =============================================================================

/// Visitor for const simplification.
///
/// See the [the module-level documentation][self] for more details.
pub struct Visitor {
    pub errors: CompileError,
    /// The results of floating-point arithmetic that are known.
    pub floats: FloatTable,
    /// The floating-point operations whose results are missing.
    pub pending: Vec<FloatOp>,
}

/// Why a tree is not in its final form after the pass.
#[derive(Debug)]
pub enum Unfinished {
    /// Results of floating-point arithmetic are missing; with these added to the table, the pass
    /// gets further.
    NeedFloats(Vec<FloatOp>),
    /// Errors were found.
    Errors(CompileError),
}

fn const_of(e: &Sp<Expr>) -> (r: Option<ScalarValue>)
    ensures
        r == as_const(expr_view(*e).value),
{
    match &e.value {
        Expr::LitInt { value, .. } => Some(ScalarValue::Int(*value)),
        Expr::LitFloat { value } => Some(ScalarValue::Float(*value)),
        _ => None,
    }
}

fn literal_of(v: ScalarValue) -> (r: Expr)
    ensures
        forall|span: Span| (#[trigger] expr_view(Spanned { span, value: r })).value == literal(v),
{
    match v {
        ScalarValue::Int(value) => Expr::LitInt { value, hex: false },
        ScalarValue::Float(value) => Expr::LitFloat { value },
    }
}

/// What becomes of an expression when it is simplified.
enum Folded {
    Keep,
    Literal(ScalarValue),
    Left,
    Right,
}

impl Visitor {
    pub open spec fn st(self) -> SimpSt {
        SimpSt { errors: self.errors@, pending: self.pending@ }
    }

    /// A visitor that knows no results of floating-point arithmetic.
    pub fn new() -> (r: Self)
        ensures
            r.st() == (SimpSt { errors: seq![], pending: seq![] }),
            r.floats@ == Seq::<(FloatOp, F32)>::empty(),
    {
        Visitor::with_floats(Vec::new())
    }

    /// A visitor that knows some results of floating-point arithmetic.
    pub fn with_floats(floats: FloatTable) -> (r: Self)
        ensures
            r.st() == (SimpSt { errors: seq![], pending: seq![] }),
            r.floats == floats,
    {
        Visitor { errors: CompileError::new_empty(), floats, pending: Vec::new() }
    }

    /// Tell whether the tree is in its final form: no result of floating-point arithmetic was
    /// missing, and there was no error.
    ///
    /// Otherwise, fail with the operations that were missing, or with the errors that were found
    /// if nothing was missing.
    pub fn finish(self) -> (r: Result<(), Unfinished>)
        ensures
            r is Ok <==> self.pending@.len() == 0 && self.errors@.len() == 0,
            self.pending@.len() != 0 ==> r == Err::<(), Unfinished>(
                Unfinished::NeedFloats(self.pending),
            ),
            self.pending@.len() == 0 && self.errors@.len() != 0 ==> r == Err::<(), Unfinished>(
                Unfinished::Errors(self.errors),
            ),
    {
        if self.pending.len() > 0 {
            return Err(Unfinished::NeedFloats(self.pending));
        }
        match self.errors.into_result(()) {
            Ok(_) => Ok(()),
            Err(e) => Err(Unfinished::Errors(e)),
        }
    }

    /// Decide what becomes of an expression whose parts have been simplified.
    fn fold(&mut self, e: &Sp<Expr>) -> (r: Folded)
        ensures
            final(self).floats == old(self).floats,
            ({
                let v = expr_view(*e).value;
                let (out, st) = fold(old(self).floats@, old(self).st(), v);
                &&& final(self).st() == st
                &&& match r {
                    Folded::Keep => out == v,
                    Folded::Literal(x) => out == literal(x),
                    Folded::Left => v is Ternary && out == v->left.value,
                    Folded::Right => v is Ternary && out == v->right.value,
                }
            }),
    {
        match &e.value {
            Expr::Unop(op, b) => {
                // can't simplify if subexpr is not const
                let b_const = match const_of(&**b) {
                    Some(v) => Spanned { span: b.span, value: v },
                    None => return Folded::Keep,
                };
                match op.const_eval(b_const) {
                    Ok(v) => Folded::Literal(v),
                    Err(err) => {
                        self.errors.push(err);
                        Folded::Keep
                    },
                }
            },
            Expr::Binop(a, op, b) => {
                // can't simplify if any subexpr is not const
                let (a_const, b_const) = match (const_of(&**a), const_of(&**b)) {
                    (Some(x), Some(y)) => (
                        Spanned { span: a.span, value: x },
                        Spanned { span: b.span, value: y },
                    ),
                    _ => return Folded::Keep,
                };
                match op.const_eval(&self.floats, a_const, b_const) {
                    Ok(Evaluated::Value(v)) => Folded::Literal(v),
                    Ok(Evaluated::Pending(op)) => {
                        self.pending.push(op);
                        Folded::Keep
                    },
                    Err(err) => {
                        self.errors.push(err);
                        Folded::Keep
                    },
                }
            },
            Expr::Ternary { cond, left, right } => match const_of(&**cond) {
                Some(ScalarValue::Int(n)) => if n == 0 {
                    Folded::Right
                } else {
                    Folded::Left
                },
                Some(ScalarValue::Float(_)) => {
                    self.errors.push(Diagnostic::TernaryCondNotInt { cond: cond.span });
                    Folded::Keep
                },
                None => Folded::Keep,
            },
            // can't simplify other expressions
            _ => Folded::Keep,
        }
    }

    pub fn visit_expr(&mut self, e: &mut Sp<Expr>)
        ensures
            final(self).floats == old(self).floats,
            (expr_view(*final(e)), final(self).st()) == simp_expr(
                old(self).floats@,
                old(self).st(),
                expr_view(*old(e)),
            ),
        decreases *old(e),
    {
        // simplify subexpressions first
        match &mut e.value {
            Expr::Ternary { cond, left, right } => {
                self.visit_expr(&mut **cond);
                self.visit_expr(&mut **left);
                self.visit_expr(&mut **right);
            },
            Expr::Binop(a, _, b) => {
                self.visit_expr(&mut **a);
                self.visit_expr(&mut **b);
            },
            Expr::Call { func, args } => {
                proof {
                    lemma_exprs_view(args@, args@.len());
                }
                self.visit_exprs(args);
            },
            Expr::Unop(_, b) => {
                self.visit_expr(&mut **b);
            },
            _ => {},
        }

        // now inspect this expression
        let folded = self.fold(e);
        match folded {
            Folded::Keep => {},
            Folded::Literal(v) => {
                e.value = literal_of(v);
                assert(expr_view(*e) == expr_view(Spanned { span: e.span, value: e.value }));
            },
            Folded::Left => {
                let mut whole = Expr::LitInt { value: 0, hex: false };
                core::mem::swap(&mut e.value, &mut whole);
                if let Expr::Ternary { left, .. } = whole {
                    let l = *left;
                    e.value = l.value;
                    assert(expr_view(*e).value == expr_view(l).value);
                }
            },
            Folded::Right => {
                let mut whole = Expr::LitInt { value: 0, hex: false };
                core::mem::swap(&mut e.value, &mut whole);
                if let Expr::Ternary { right, .. } = whole {
                    let r = *right;
                    e.value = r.value;
                    assert(expr_view(*e).value == expr_view(r).value);
                }
            },
        }
    }

    fn visit_exprs(&mut self, es: &mut Vec<Sp<Expr>>)
        ensures
            final(self).floats == old(self).floats,
            (exprs_view(final(es)@, final(es)@.len()), final(self).st()) == simp_exprs(
                old(self).floats@,
                old(self).st(),
                exprs_view(old(es)@, old(es)@.len()),
                old(es)@.len(),
            ),
        decreases *old(es),
    {
        let n: usize = es.len();
        let ghost all = es@;
        let ghost views = exprs_view(all, all.len());
        let mut i: usize = 0;
        proof {
            lemma_exprs_view(all, all.len());
        }
        while i < n
            invariant
                i <= n,
                n == es@.len(),
                n == all.len(),
                all == old(es)@,
                views.len() == n,
                forall|j: int| 0 <= j < n ==> #[trigger] views[j] == expr_view(all[j]),
                self.floats == old(self).floats,
                forall|j: int| i <= j < n ==> es@[j] == all[j],
                exprs_view(es@, i as nat) == simp_exprs(
                    old(self).floats@,
                    old(self).st(),
                    views,
                    i as nat,
                ).0,
                self.st() == simp_exprs(old(self).floats@, old(self).st(), views, i as nat).1,
            decreases n - i,
        {
            assert(decreases_to!(*old(es) => all[i as int]));
            assert(views[i as int] == expr_view(all[i as int]));
            let ghost before = es@;
            self.visit_expr(&mut es[i]);
            proof {
                lemma_exprs_view(before, i as nat);
                lemma_exprs_view(es@, i as nat);
                assert(exprs_view(before, i as nat) =~= exprs_view(es@, i as nat));
            }
            i = i + 1;
        }
    }

    pub fn visit_cond(&mut self, c: &mut Sp<Cond>)
        ensures
            final(self).floats == old(self).floats,
            (cond_view(*final(c)), final(self).st()) == simp_cond(
                old(self).floats@,
                old(self).st(),
                cond_view(*old(c)),
            ),
    {
        match &mut c.value {
            Cond::Decrement(_) => {},
            Cond::Expr(e) => {
                self.visit_expr(e);
            },
        }
    }

    fn visit_decls(&mut self, vars: &mut Vec<(Sp<Var>, Option<Sp<Expr>>)>)
        ensures
            final(self).floats == old(self).floats,
            (decls_view(final(vars)@), final(self).st()) == simp_decls(
                old(self).floats@,
                old(self).st(),
                decls_view(old(vars)@),
                old(vars)@.len(),
            ),
    {
        let n: usize = vars.len();
        let ghost all = vars@;
        let ghost views = decls_view(all);
        let mut i: usize = 0;
        assert(decls_view(vars@).take(0) =~= seq![]);
        while i < n
            invariant
                i <= n,
                n == vars@.len(),
                n == all.len(),
                all == old(vars)@,
                views == decls_view(all),
                self.floats == old(self).floats,
                forall|j: int| i <= j < n ==> vars@[j] == all[j],
                decls_view(vars@).take(i as int) == simp_decls(
                    old(self).floats@,
                    old(self).st(),
                    views,
                    i as nat,
                ).0,
                self.st() == simp_decls(old(self).floats@, old(self).st(), views, i as nat).1,
            decreases n - i,
        {
            assert(views[i as int] == decl_view(all[i as int]));
            let ghost before = vars@;
            match &mut vars[i].1 {
                Some(e) => {
                    self.visit_expr(e);
                },
                None => {},
            }
            proof {
                assert(decls_view(vars@)[i as int] == decl_view(vars@[i as int]));
                assert(decls_view(vars@).take(i + 1) =~= decls_view(before).take(i as int).push(
                    decl_view(vars@[i as int]),
                ));
            }
            i = i + 1;
        }
        assert(decls_view(vars@).take(n as int) =~= decls_view(vars@));
    }

    pub fn visit_stmt_body(&mut self, body: &mut Sp<StmtBody>)
        ensures
            final(self).floats == old(self).floats,
            (body_view(*final(body)), final(self).st()) == simp_body(
                old(self).floats@,
                old(self).st(),
                body_view(*old(body)),
            ),
        decreases *old(body),
    {
        match &mut body.value {
            StmtBody::CondJump { cond, .. } => {
                self.visit_cond(cond);
            },
            StmtBody::Loop { block } => {
                proof {
                    lemma_stmts_view(block.0@, block.0@.len());
                }
                self.visit_block(block);
            },
            StmtBody::While { cond, block, .. } => {
                proof {
                    lemma_stmts_view(block.0@, block.0@.len());
                }
                self.visit_cond(cond);
                self.visit_block(block);
            },
            StmtBody::Expr(e) => {
                self.visit_expr(e);
            },
            StmtBody::Assignment { value, .. } => {
                self.visit_expr(value);
            },
            StmtBody::Declaration { vars, .. } => {
                self.visit_decls(vars);
            },
            _ => {},
        }
    }

    pub fn visit_block(&mut self, block: &mut Block)
        ensures
            final(self).floats == old(self).floats,
            (final(block)@, final(self).st()) == simp_block(
                old(self).floats@,
                old(self).st(),
                old(block)@,
                old(block)@.len(),
            ),
        decreases *old(block),
    {
        let n: usize = block.0.len();
        let ghost all = block.0@;
        let ghost views = stmts_view(all, all.len());
        let mut i: usize = 0;
        proof {
            lemma_stmts_view(all, all.len());
        }
        while i < n
            invariant
                i <= n,
                n == block.0@.len(),
                n == all.len(),
                all == old(block).0@,
                views.len() == n,
                forall|j: int| 0 <= j < n ==> #[trigger] views[j] == stmt_view(all[j]),
                self.floats == old(self).floats,
                forall|j: int| i <= j < n ==> block.0@[j] == all[j],
                stmts_view(block.0@, i as nat) == simp_block(
                    old(self).floats@,
                    old(self).st(),
                    views,
                    i as nat,
                ).0,
                self.st() == simp_block(old(self).floats@, old(self).st(), views, i as nat).1,
            decreases n - i,
        {
            assert(decreases_to!(old(block).0 => all[i as int]));
            assert(views[i as int] == stmt_view(all[i as int]));
            let ghost before = block.0@;
            self.visit_stmt_body(&mut block.0[i].value.body);
            proof {
                lemma_stmts_view(before, i as nat);
                lemma_stmts_view(block.0@, i as nat);
                assert(stmts_view(before, i as nat) =~= stmts_view(block.0@, i as nat));
                assert(block.0@[i as int].span == all[i as int].span);
                assert(block.0@[i as int].value.time == all[i as int].value.time);
                assert(block.0@[i as int].value.labels == all[i as int].value.labels);
                assert(stmt_view(block.0@[i as int]).value.labels == views[i as int].value.labels);
            }
            i = i + 1;
        }
    }

    pub fn visit_meta(&mut self, meta: &mut Sp<Meta>)
        ensures
            final(self).floats == old(self).floats,
            (meta_view(*final(meta)), final(self).st()) == simp_meta(
                old(self).floats@,
                old(self).st(),
                meta_view(*old(meta)),
            ),
        decreases *old(meta),
    {
        match &mut meta.value {
            Meta::Scalar(e) => {
                self.visit_expr(e);
            },
            Meta::Array(items) => {
                proof {
                    lemma_metas_view(items@, items@.len());
                }
                self.visit_metas(items);
            },
            Meta::Object(fields) => {
                proof {
                    lemma_field_seq_view(fields.value.0@, fields.value.0@.len());
                }
                self.visit_fields(&mut fields.value);
            },
            Meta::Variant { fields, .. } => {
                proof {
                    lemma_field_seq_view(fields.value.0@, fields.value.0@.len());
                }
                self.visit_fields(&mut fields.value);
            },
        }
    }

    fn visit_metas(&mut self, items: &mut Vec<Sp<Meta>>)
        ensures
            final(self).floats == old(self).floats,
            (metas_view(final(items)@, final(items)@.len()), final(self).st()) == simp_metas(
                old(self).floats@,
                old(self).st(),
                metas_view(old(items)@, old(items)@.len()),
                old(items)@.len(),
            ),
        decreases *old(items),
    {
        let n: usize = items.len();
        let ghost all = items@;
        let ghost views = metas_view(all, all.len());
        let mut i: usize = 0;
        proof {
            lemma_metas_view(all, all.len());
        }
        while i < n
            invariant
                i <= n,
                n == items@.len(),
                n == all.len(),
                all == old(items)@,
                views.len() == n,
                forall|j: int| 0 <= j < n ==> #[trigger] views[j] == meta_view(all[j]),
                self.floats == old(self).floats,
                forall|j: int| i <= j < n ==> items@[j] == all[j],
                metas_view(items@, i as nat) == simp_metas(
                    old(self).floats@,
                    old(self).st(),
                    views,
                    i as nat,
                ).0,
                self.st() == simp_metas(old(self).floats@, old(self).st(), views, i as nat).1,
            decreases n - i,
        {
            assert(decreases_to!(*old(items) => all[i as int]));
            assert(views[i as int] == meta_view(all[i as int]));
            let ghost before = items@;
            self.visit_meta(&mut items[i]);
            proof {
                lemma_metas_view(before, i as nat);
                lemma_metas_view(items@, i as nat);
                assert(metas_view(before, i as nat) =~= metas_view(items@, i as nat));
            }
            i = i + 1;
        }
    }

    pub fn visit_fields(&mut self, fields: &mut Fields)
        ensures
            final(self).floats == old(self).floats,
            (final(fields)@, final(self).st()) == simp_fields(
                old(self).floats@,
                old(self).st(),
                old(fields)@,
                old(fields)@.len(),
            ),
        decreases *old(fields),
    {
        let n: usize = fields.0.len();
        let ghost all = fields.0@;
        let ghost views = field_seq_view(all, all.len());
        let mut i: usize = 0;
        proof {
            lemma_field_seq_view(all, all.len());
        }
        while i < n
            invariant
                i <= n,
                n == fields.0@.len(),
                n == all.len(),
                all == old(fields).0@,
                views.len() == n,
                forall|j: int|
                    0 <= j < n ==> #[trigger] views[j] == (
                        ident_view(all[j].0),
                        meta_view(all[j].1),
                    ),
                self.floats == old(self).floats,
                forall|j: int| i <= j < n ==> fields.0@[j] == all[j],
                field_seq_view(fields.0@, i as nat) == simp_fields(
                    old(self).floats@,
                    old(self).st(),
                    views,
                    i as nat,
                ).0,
                self.st() == simp_fields(old(self).floats@, old(self).st(), views, i as nat).1,
            decreases n - i,
        {
            assert(decreases_to!(old(fields).0 => all[i as int]));
            assert(views[i as int] == (
                ident_view(all[i as int].0),
                meta_view(all[i as int].1),
            ));
            let ghost before = fields.0@;
            self.visit_meta(&mut fields.0[i].1);
            proof {
                lemma_field_seq_view(before, i as nat);
                lemma_field_seq_view(fields.0@, i as nat);
                assert(field_seq_view(before, i as nat) =~= field_seq_view(fields.0@, i as nat));
            }
            i = i + 1;
        }
    }

    pub fn visit_item(&mut self, item: &mut Sp<Item>)
        ensures
            final(self).floats == old(self).floats,
            (item_view(*final(item)), final(self).st()) == simp_item(
                old(self).floats@,
                old(self).st(),
                item_view(*old(item)),
            ),
    {
        match &mut item.value {
            Item::Meta { fields, .. } => {
                self.visit_fields(&mut fields.value);
            },
            Item::AnmScript { code, .. } => {
                self.visit_block(code);
            },
            Item::Func { code, .. } => match code {
                Some(block) => {
                    self.visit_block(block);
                },
                None => {},
            },
            Item::FileList { .. } => {},
        }
    }

    pub fn visit_script(&mut self, script: &mut Script)
        ensures
            final(self).floats == old(self).floats,
            (final(script)@, final(self).st()) == simp_script(
                old(self).floats@,
                old(self).st(),
                old(script)@,
            ),
    {
        let n: usize = script.items.len();
        let ghost all = script.items@;
        let ghost views = script@.items;
        let mut i: usize = 0;
        assert(items_view(script.items@).take(0) =~= seq![]);
        while i < n
            invariant
                i <= n,
                n == script.items@.len(),
                n == all.len(),
                all == old(script).items@,
                script.mapfiles == old(script).mapfiles,
                views == items_view(all),
                self.floats == old(self).floats,
                forall|j: int| i <= j < n ==> script.items@[j] == all[j],
                items_view(script.items@).take(i as int) == simp_items(
                    old(self).floats@,
                    old(self).st(),
                    views,
                    i as nat,
                ).0,
                self.st() == simp_items(old(self).floats@, old(self).st(), views, i as nat).1,
            decreases n - i,
        {
            assert(views[i as int] == item_view(all[i as int]));
            let ghost before = script.items@;
            self.visit_item(&mut script.items[i]);
            proof {
                assert(items_view(script.items@)[i as int] == item_view(script.items@[i as int]));
                assert(items_view(script.items@).take(i + 1) =~= items_view(before).take(
                    i as int,
                ).push(item_view(script.items@[i as int])));
            }
            i = i + 1;
        }
        assert(items_view(script.items@).take(n as int) =~= items_view(script.items@));
    }
}

// =============================================================================

proof fn lemma_simp_ignores_state(
    table: Seq<(FloatOp, F32)>,
    st1: SimpSt,
    st2: SimpSt,
    e1: Sp<ExprV>,
    e2: Sp<ExprV>,
)
    requires
        e1.value == e2.value,
    ensures
        simp_expr(table, st1, e1).0.value == simp_expr(table, st2, e2).0.value,
    decreases e1, 0nat,
{
    match e1.value {
        ExprV::Ternary { cond, left, right } => {
            let (c1, s1) = simp_expr(table, st1, *cond);
            let (c2, s2) = simp_expr(table, st2, *cond);
            lemma_simp_ignores_state(table, st1, st2, *cond, *cond);
            let (l1, t1) = simp_expr(table, s1, *left);
            let (l2, t2) = simp_expr(table, s2, *left);
            lemma_simp_ignores_state(table, s1, s2, *left, *left);
            lemma_simp_ignores_state(table, t1, t2, *right, *right);
        },
        ExprV::Binop(a, op, b) => {
            let (a1, s1) = simp_expr(table, st1, *a);
            let (a2, s2) = simp_expr(table, st2, *a);
            lemma_simp_ignores_state(table, st1, st2, *a, *a);
            lemma_simp_ignores_state(table, s1, s2, *b, *b);
        },
        ExprV::Call { func, args } => {
            lemma_simps_ignore_state(table, st1, st2, args, args.len());
        },
        ExprV::Unop(op, b) => {
            lemma_simp_ignores_state(table, st1, st2, *b, *b);
        },
        _ => {},
    }
}

proof fn lemma_simps_ignore_state(
    table: Seq<(FloatOp, F32)>,
    st1: SimpSt,
    st2: SimpSt,
    es: Seq<Sp<ExprV>>,
    n: nat,
)
    requires
        n <= es.len(),
    ensures
        simp_exprs(table, st1, es, n).0 == simp_exprs(table, st2, es, n).0,
        simp_exprs(table, st1, es, n).0.len() == n,
    decreases es, n,
{
    if n > 0 {
        lemma_simps_ignore_state(table, st1, st2, es, (n - 1) as nat);
        lemma_simp_ignores_state(
            table,
            simp_exprs(table, st1, es, (n - 1) as nat).1,
            simp_exprs(table, st2, es, (n - 1) as nat).1,
            es[n - 1],
            es[n - 1],
        );
    }
}

/// Simplifying what has been simplified changes nothing.
pub proof fn law_simplify_idempotent(
    table: Seq<(FloatOp, F32)>,
    st1: SimpSt,
    st2: SimpSt,
    e: Sp<ExprV>,
)
    ensures
        simp_expr(table, st2, simp_expr(table, st1, e).0).0 == simp_expr(table, st1, e).0,
    decreases e, 0nat,
{
    let once = simp_expr(table, st1, e).0;
    match e.value {
        ExprV::Ternary { cond, left, right } => {
            let (c, s1) = simp_expr(table, st1, *cond);
            let (l, s2) = simp_expr(table, s1, *left);
            let (r, s3) = simp_expr(table, s2, *right);
            let (c2, t1) = simp_expr(table, st2, c);
            let (l2, t2) = simp_expr(table, t1, l);
            law_simplify_idempotent(table, st1, st2, *cond);
            law_simplify_idempotent(table, s1, t1, *left);
            law_simplify_idempotent(table, s2, t2, *right);
            law_simplify_idempotent(table, s1, st2, *left);
            law_simplify_idempotent(table, s2, st2, *right);
            if once.value == l.value {
                lemma_simp_ignores_state(table, st2, st2, l, once);
            }
            if once.value == r.value {
                lemma_simp_ignores_state(table, st2, st2, r, once);
            }
        },
        ExprV::Binop(a, op, b) => {
            let (a1, s1) = simp_expr(table, st1, *a);
            let (b1, s2) = simp_expr(table, s1, *b);
            let (a2, t1) = simp_expr(table, st2, a1);
            law_simplify_idempotent(table, st1, st2, *a);
            law_simplify_idempotent(table, s1, t1, *b);
        },
        ExprV::Call { func, args } => {
            lemma_simps_idempotent(table, st1, st2, args, args.len());
            lemma_simps_ignore_state(table, st1, st1, args, args.len());
            let args1 = simp_exprs(table, st1, args, args.len()).0;
            assert(args1.take(args.len() as int) =~= args1);
        },
        ExprV::Unop(op, b) => {
            law_simplify_idempotent(table, st1, st2, *b);
        },
        _ => {},
    }
}

proof fn lemma_simps_idempotent(
    table: Seq<(FloatOp, F32)>,
    st1: SimpSt,
    st2: SimpSt,
    es: Seq<Sp<ExprV>>,
    n: nat,
)
    requires
        n <= es.len(),
    ensures
        ({
            let once = simp_exprs(table, st1, es, es.len()).0;
            simp_exprs(table, st2, once, n).0 == once.take(n as int)
        }),
    decreases es, n,
{
    let once = simp_exprs(table, st1, es, es.len()).0;
    lemma_simps_ignore_state(table, st1, st1, es, es.len());
    if n > 0 {
        lemma_simps_idempotent(table, st1, st2, es, (n - 1) as nat);
        lemma_simps_index(table, st1, es, es.len(), n - 1);
        let before = simp_exprs(table, st1, es, (n - 1) as nat).1;
        let state = simp_exprs(table, st2, once, (n - 1) as nat).1;
        law_simplify_idempotent(table, before, state, es[n - 1]);
        assert(once.take(n as int) =~= once.take(n - 1).push(once[n - 1]));
    } else {
        assert(once.take(0) =~= seq![]);
    }
}

proof fn lemma_simps_index(
    table: Seq<(FloatOp, F32)>,
    st: SimpSt,
    es: Seq<Sp<ExprV>>,
    n: nat,
    i: int,
)
    requires
        0 <= i < n <= es.len(),
    ensures
        simp_exprs(table, st, es, n).0.len() == n,
        simp_exprs(table, st, es, n).0[i] == simp_expr(
            table,
            simp_exprs(table, st, es, i as nat).1,
            es[i],
        ).0,
    decreases n,
{
    lemma_simps_ignore_state(table, st, st, es, n);
    lemma_simps_ignore_state(table, st, st, es, (n - 1) as nat);
    if i < n - 1 {
        lemma_simps_index(table, st, es, (n - 1) as nat, i);
    }
}

/// What a script runs on: the values of variables, what functions return, and how numbers are
/// computed.
pub ghost struct Env {
    pub vars: spec_fn(VarV) -> Option<ScalarValue>,
    pub calls: spec_fn(Seq<char>, Seq<Option<ScalarValue>>) -> Option<ScalarValue>,
    pub floats: spec_fn(FloatOp) -> F32,
}

/// The number that 32 bits hold of an integer.
pub open spec fn held_in_32_bits(x: int) -> i32 {
    ((x + 0x8000_0000) % 0x1_0000_0000 - 0x8000_0000) as i32
}

/// What a comparison, or the negation of a truth value, gives.
pub open spec fn truth_value(b: bool) -> ScalarValue {
    ScalarValue::Int(
        if b {
            1
        } else {
            0
        },
    )
}

/// The value of an operation on one value, where it has one.
pub open spec fn run_unop(op: UnopKind, b: ScalarValue) -> Option<ScalarValue> {
    match (op, b) {
        (UnopKind::Neg, ScalarValue::Int(x)) => Some(ScalarValue::Int(held_in_32_bits(0 - x))),
        (UnopKind::Neg, ScalarValue::Float(x)) => Some(ScalarValue::Float(x.neg_spec())),
        // anything but zero is true
        (UnopKind::Not, ScalarValue::Int(x)) => Some(truth_value(!(x != 0))),
        (UnopKind::Not, ScalarValue::Float(_)) => None,
    }
}

/// The value of an operation on two integers, where it has one.
pub open spec fn run_int(op: BinopKind, a: i32, b: i32) -> Option<ScalarValue> {
    let number = |x: int| Some(ScalarValue::Int(held_in_32_bits(x)));
    match op {
        BinopKind::Add => number(a + b),
        BinopKind::Sub => number(a - b),
        BinopKind::Mul => number(a * b),
        BinopKind::Div => if b == 0 {
            None
        } else {
            number(trunc_div(a as int, b as int))
        },
        BinopKind::Rem => if b == 0 {
            None
        } else {
            number(trunc_rem(a as int, b as int))
        },
        BinopKind::Eq => Some(truth_value(a == b)),
        BinopKind::Ne => Some(truth_value(!(a == b))),
        BinopKind::Lt => Some(truth_value(a < b)),
        BinopKind::Le => Some(truth_value(a < b || a == b)),
        BinopKind::Gt => Some(truth_value(b < a)),
        BinopKind::Ge => Some(truth_value(b < a || a == b)),
        BinopKind::LogicOr => if a != 0 {
            number(a as int)
        } else {
            number(b as int)
        },
        BinopKind::LogicAnd => if a != 0 {
            number(b as int)
        } else {
            number(0)
        },
        BinopKind::BitXor => number((a ^ b) as int),
        BinopKind::BitAnd => number((a & b) as int),
        BinopKind::BitOr => number((a | b) as int),
    }
}

/// Whether a number is less than another; none is less than what is not a number.
pub open spec fn float_less(a: F32, b: F32) -> bool {
    !a.is_nan_spec() && !b.is_nan_spec() && a.order_key() < b.order_key()
}

/// Whether two numbers are the same.
pub open spec fn float_same(a: F32, b: F32) -> bool {
    !a.is_nan_spec() && !b.is_nan_spec() && a.order_key() == b.order_key()
}

/// The value of an operation on two numbers with a fraction, where it has one.
pub open spec fn run_float(env: Env, op: BinopKind, a: F32, b: F32) -> Option<ScalarValue> {
    match op {
        BinopKind::Add | BinopKind::Sub | BinopKind::Mul | BinopKind::Div | BinopKind::Rem => Some(
            ScalarValue::Float((env.floats)(FloatOp { op, a, b })),
        ),
        BinopKind::Eq => Some(truth_value(float_same(a, b))),
        BinopKind::Ne => Some(truth_value(!float_same(a, b))),
        BinopKind::Lt => Some(truth_value(float_less(a, b))),
        BinopKind::Le => Some(truth_value(float_less(a, b) || float_same(a, b))),
        BinopKind::Gt => Some(truth_value(float_less(b, a))),
        BinopKind::Ge => Some(truth_value(float_less(b, a) || float_same(a, b))),
        _ => None,
    }
}

/// The value of an operation on two values, where it has one.
pub open spec fn run_binop(env: Env, op: BinopKind, a: ScalarValue, b: ScalarValue) -> Option<
    ScalarValue,
> {
    match (a, b) {
        (ScalarValue::Int(x), ScalarValue::Int(y)) => run_int(op, x, y),
        (ScalarValue::Float(x), ScalarValue::Float(y)) => run_float(env, op, x, y),
        _ => None,
    }
}

/// The value of an expression when it is run, where it has one.
pub open spec fn run_expr(env: Env, e: Sp<ExprV>) -> Option<ScalarValue>
    decreases e, 0nat,
{
    match e.value {
        ExprV::Ternary { cond, left, right } => match run_expr(env, *cond) {
            Some(ScalarValue::Int(n)) => if n == 0 {
                run_expr(env, *right)
            } else {
                run_expr(env, *left)
            },
            _ => None,
        },
        ExprV::Binop(a, op, b) => match (run_expr(env, *a), run_expr(env, *b)) {
            (Some(x), Some(y)) => run_binop(env, op.value, x, y),
            _ => None,
        },
        ExprV::Call { func, args } => (env.calls)(func.value, run_exprs(env, args, args.len())),
        ExprV::Unop(op, b) => match run_expr(env, *b) {
            Some(x) => run_unop(op.value, x),
            None => None,
        },
        ExprV::LitInt { value, .. } => Some(ScalarValue::Int(value)),
        ExprV::LitFloat { value } => Some(ScalarValue::Float(value)),
        ExprV::LitString { .. } => None,
        ExprV::Var(var) => (env.vars)(var.value),
    }
}

/// The values of the first `n` expressions of a list.
pub open spec fn run_exprs(env: Env, es: Seq<Sp<ExprV>>, n: nat) -> Seq<Option<ScalarValue>>
    decreases es, n,
{
    if n == 0 || n > es.len() {
        seq![]
    } else {
        run_exprs(env, es, (n - 1) as nat).push(run_expr(env, es[n - 1]))
    }
}

/// Whether a table holds true results only.
pub open spec fn table_is_true(table: Seq<(FloatOp, F32)>, env: Env) -> bool {
    forall|op: FloatOp|
        (#[trigger] float_result(table, op)) matches Some(x) ==> x == (env.floats)(op)
}

/// An operation that the table can do has the value that it has when it is run.
proof fn lemma_binop_agrees(
    table: Seq<(FloatOp, F32)>,
    env: Env,
    op: Sp<BinopKind>,
    a: Sp<ScalarValue>,
    b: Sp<ScalarValue>,
)
    requires
        table_is_true(table, env),
    ensures
        binop_eval(table, op, a, b) matches Ok(Evaluated::Value(v)) ==> run_binop(
            env,
            op.value,
            a.value,
            b.value,
        ) == Some(v),
{
    match (a.value, b.value) {
        (ScalarValue::Int(x), ScalarValue::Int(y)) => {
            if !op.value.divides_by_zero(y) {
                lemma_int_agrees(op.value, x, y);
            }
        },
        (ScalarValue::Float(x), ScalarValue::Float(y)) => {
            let fop = FloatOp { op: op.value, a: x, b: y };
            assert(float_result(table, fop) matches Some(r) ==> r == (env.floats)(fop));
        },
        _ => {},
    }
}

proof fn lemma_held_as_it_is(x: int)
    requires
        i32::MIN <= x <= i32::MAX,
    ensures
        held_in_32_bits(x) == x,
{
}

proof fn lemma_product_is_held(x: int)
    ensures
        held_in_32_bits(x) == if x % 0x1_0000_0000 > i32::MAX {
            x % 0x1_0000_0000 - 0x1_0000_0000
        } else {
            x % 0x1_0000_0000
        },
{
}

proof fn lemma_sum_agrees(op: BinopKind, a: i32, b: i32)
    requires
        op is Add || op is Sub,
    ensures
        run_int(op, a, b) == Some(ScalarValue::Int(op.eval_int_spec(a, b))),
{
}

proof fn lemma_product_agrees(op: BinopKind, a: i32, b: i32)
    requires
        op is Mul,
    ensures
        run_int(op, a, b) == Some(ScalarValue::Int(op.eval_int_spec(a, b))),
{
    lemma_product_is_held(a as int * b as int);
}

proof fn lemma_quotient_agrees(op: BinopKind, a: i32, b: i32)
    requires
        op is Div,
        b != 0,
    ensures
        run_int(op, a, b) == Some(ScalarValue::Int(op.eval_int_spec(a, b))),
{
    lemma_div_in_range(a, b);
    if a == i32::MIN && b == -1 {
        assert(trunc_div(a as int, b as int) == 0x8000_0000);
    } else {
        lemma_held_as_it_is(trunc_div(a as int, b as int));
    }
}

proof fn lemma_remainder_agrees(op: BinopKind, a: i32, b: i32)
    requires
        op is Rem,
        b != 0,
    ensures
        run_int(op, a, b) == Some(ScalarValue::Int(op.eval_int_spec(a, b))),
{
    lemma_rem_in_range(a, b);
    lemma_held_as_it_is(trunc_rem(a as int, b as int));
}

proof fn lemma_logic_agrees(op: BinopKind, a: i32, b: i32)
    requires
        op is LogicOr || op is LogicAnd,
    ensures
        run_int(op, a, b) == Some(ScalarValue::Int(op.eval_int_spec(a, b))),
{
    lemma_held_as_it_is(a as int);
    lemma_held_as_it_is(b as int);
    lemma_held_as_it_is(0);
}

proof fn lemma_bits_agree(op: BinopKind, a: i32, b: i32)
    requires
        op is BitXor || op is BitAnd || op is BitOr,
    ensures
        run_int(op, a, b) == Some(ScalarValue::Int(op.eval_int_spec(a, b))),
{
    lemma_held_as_it_is((a ^ b) as int);
    lemma_held_as_it_is((a & b) as int);
    lemma_held_as_it_is((a | b) as int);
}

proof fn lemma_comparison_agrees(op: BinopKind, a: i32, b: i32)
    requires
        op is Eq || op is Ne || op is Lt || op is Le || op is Gt || op is Ge,
    ensures
        run_int(op, a, b) == Some(ScalarValue::Int(op.eval_int_spec(a, b))),
{
}

#[verifier::spinoff_prover]
proof fn lemma_int_agrees(op: BinopKind, a: i32, b: i32)
    requires
        !op.divides_by_zero(b),
    ensures
        run_int(op, a, b) == Some(ScalarValue::Int(op.eval_int_spec(a, b))),
{
    match op {
        BinopKind::Add | BinopKind::Sub => lemma_sum_agrees(op, a, b),
        BinopKind::Mul => lemma_product_agrees(op, a, b),
        BinopKind::Div => lemma_quotient_agrees(op, a, b),
        BinopKind::Rem => lemma_remainder_agrees(op, a, b),
        BinopKind::LogicOr | BinopKind::LogicAnd => lemma_logic_agrees(op, a, b),
        BinopKind::BitXor | BinopKind::BitAnd | BinopKind::BitOr => lemma_bits_agree(op, a, b),
        BinopKind::Eq
        | BinopKind::Ne
        | BinopKind::Lt
        | BinopKind::Le
        | BinopKind::Gt
        | BinopKind::Ge => lemma_comparison_agrees(op, a, b),
    }
}

proof fn lemma_unop_agrees(op: Sp<UnopKind>, b: Sp<ScalarValue>)
    ensures
        unop_eval(op, b) matches Ok(v) ==> run_unop(op.value, b.value) == Some(v),
        unop_eval(op, b) is Err ==> run_unop(op.value, b.value) is None,
{
}

/// Folding an expression whose parts are simplified keeps its value.
proof fn lemma_fold_keeps_value(
    table: Seq<(FloatOp, F32)>,
    st: SimpSt,
    env: Env,
    span: Span,
    v: ExprV,
)
    requires
        table_is_true(table, env),
    ensures
        run_expr(env, Spanned { span, value: fold(table, st, v).0 }) == run_expr(
            env,
            Spanned { span, value: v },
        ),
{
    match v {
        ExprV::Ternary { cond, left, right } => {
            lemma_run_ignores_span(env, *left, span);
            lemma_run_ignores_span(env, *right, span);
            match as_const(cond.value) {
                Some(c) => {
                    assert(run_expr(env, *cond) == Some(c));
                },
                None => {},
            }
        },
        ExprV::Unop(op, b) => match as_const(b.value) {
            Some(x) => {
                assert(run_expr(env, *b) == Some(x));
                lemma_unop_agrees(op, Spanned { span: b.span, value: x });
                match unop_eval(op, Spanned { span: b.span, value: x }) {
                    Ok(r) => {
                        assert(fold(table, st, v).0 == literal(r));
                        assert(run_expr(env, Spanned { span, value: literal(r) }) == Some(r));
                    },
                    Err(_) => {
                        assert(fold(table, st, v).0 == v);
                    },
                }
            },
            None => {},
        },
        ExprV::Binop(a, op, b) => match (as_const(a.value), as_const(b.value)) {
            (Some(x), Some(y)) => {
                assert(run_expr(env, *a) == Some(x));
                assert(run_expr(env, *b) == Some(y));
                let av = Spanned { span: a.span, value: x };
                let bv = Spanned { span: b.span, value: y };
                lemma_binop_agrees(table, env, op, av, bv);
                match binop_eval(table, op, av, bv) {
                    Ok(Evaluated::Value(r)) => {
                        assert(fold(table, st, v).0 == literal(r));
                        assert(run_expr(env, Spanned { span, value: literal(r) }) == Some(r));
                    },
                    _ => {
                        assert(fold(table, st, v).0 == v);
                    },
                }
            },
            _ => {},
        },
        _ => {},
    }
}

/// A simplified expression has the value that the expression had, if the table of results is true.
pub proof fn law_simplify_keeps_value(
    table: Seq<(FloatOp, F32)>,
    st: SimpSt,
    env: Env,
    e: Sp<ExprV>,
)
    requires
        table_is_true(table, env),
    ensures
        run_expr(env, simp_expr(table, st, e).0) == run_expr(env, e),
    decreases e, 0nat,
{
    match e.value {
        ExprV::Ternary { cond, left, right } => {
            let (c, s1) = simp_expr(table, st, *cond);
            let (l, s2) = simp_expr(table, s1, *left);
            let (r, s3) = simp_expr(table, s2, *right);
            law_simplify_keeps_value(table, st, env, *cond);
            law_simplify_keeps_value(table, s1, env, *left);
            law_simplify_keeps_value(table, s2, env, *right);
            let v = ExprV::Ternary { cond: Box::new(c), left: Box::new(l), right: Box::new(r) };
            lemma_fold_keeps_value(table, s3, env, e.span, v);
            assert(run_expr(env, Spanned { span: e.span, value: v }) == run_expr(env, e));
        },
        ExprV::Binop(a, op, b) => {
            let (a1, s1) = simp_expr(table, st, *a);
            let (b1, s2) = simp_expr(table, s1, *b);
            law_simplify_keeps_value(table, st, env, *a);
            law_simplify_keeps_value(table, s1, env, *b);
            let v = ExprV::Binop(Box::new(a1), op, Box::new(b1));
            lemma_fold_keeps_value(table, s2, env, e.span, v);
            assert(run_expr(env, Spanned { span: e.span, value: v }) == run_expr(env, e));
        },
        ExprV::Call { func, args } => {
            lemma_simps_keep_values(table, st, env, args, args.len());
            lemma_simps_ignore_state(table, st, st, args, args.len());
        },
        ExprV::Unop(op, b) => {
            let (b1, s1) = simp_expr(table, st, *b);
            law_simplify_keeps_value(table, st, env, *b);
            let v = ExprV::Unop(op, Box::new(b1));
            lemma_fold_keeps_value(table, s1, env, e.span, v);
            assert(run_expr(env, Spanned { span: e.span, value: v }) == run_expr(env, e));
        },
        _ => {},
    }
}

proof fn lemma_run_ignores_span(env: Env, e: Sp<ExprV>, span: Span)
    ensures
        run_expr(env, Spanned { span, value: e.value }) == run_expr(env, e),
{
}

proof fn lemma_simps_keep_values(
    table: Seq<(FloatOp, F32)>,
    st: SimpSt,
    env: Env,
    es: Seq<Sp<ExprV>>,
    n: nat,
)
    requires
        n <= es.len(),
        table_is_true(table, env),
    ensures
        run_exprs(env, simp_exprs(table, st, es, es.len()).0, n) == run_exprs(env, es, n),
    decreases es, n,
{
    lemma_simps_ignore_state(table, st, st, es, es.len());
    if n > 0 {
        lemma_simps_keep_values(table, st, env, es, (n - 1) as nat);
        lemma_simps_index(table, st, es, es.len(), n - 1);
        law_simplify_keeps_value(
            table,
            simp_exprs(table, st, es, (n - 1) as nat).1,
            env,
            es[n - 1],
        );
    }
}

} // verus!
