//! Which instructions and temporaries lowered code has.

use crate::ident::as_ins_spec;
use crate::instr::format::InstrFormat;
use crate::instr::lower::{
    allocate, assign_op, cond_jump_binop, define_temp, direct_binop, lower_args, lower_labels,
    lower_stmt, lower_var, simple_arg, temp_var, uses_var, var_expr, weight, LowerCx, LowerSt,
    SubSt,
};
use crate::instr::LowV;
use crate::pos::{Sp, Span, Spanned};
use crate::script::{AssignOpKind, BinopKind, BodyV, CondV, ExprV, GotoV, LabelV, StmtV, VarV};
use crate::type_system::{shallow_type, ArgEncoding, ScalarType};
use vstd::prelude::*;

verus! {

// =============================================================================
// Times

/// Whether code was only added to, and all instructions that were added have a given time.
pub open spec fn grew(before: Seq<LowV>, after: Seq<LowV>, time: i32) -> bool {
    &&& before.len() <= after.len()
    &&& forall|i: int| 0 <= i < before.len() ==> #[trigger] after[i] == before[i]
    &&& forall|i: int|
        before.len() <= i < after.len() ==> ((#[trigger] after[i]) matches LowV::Instr(instr)
            ==> instr.time == time)
}

proof fn lemma_assign_grows(
    cx: LowerCx,
    st: LowerSt,
    span: Span,
    time: i32,
    var: Sp<VarV>,
    op: Sp<AssignOpKind>,
    rhs: Sp<ExprV>,
)
    ensures
        grew(st.out, assign_op(cx, st, span, time, var, op, rhs).0.out, time),
    decreases
            weight(rhs),
            if op.value is Assign {
                0nat
            } else {
                2nat
            },
{
    if op.value is Assign && rhs.value is Binop {
        lemma_direct_grows(
            cx,
            st,
            span,
            time,
            var,
            op.span,
            rhs.span,
            *rhs.value->Binop_0,
            rhs.value->Binop_1,
            *rhs.value->Binop_2,
        );
    } else if let Ok((_, ty)) = lower_var(cx.regs, st.vars, var) {
        if simple_arg(cx.regs, st.vars, rhs) matches Ok(None) && !(op.value is Assign) {
            lemma_temp_grows(cx, st, time, ty, rhs);
            let (st1, tmp) = define_temp(cx, st, time, ty, rhs);
            if let Ok(id) = tmp {
                let t = var_expr(temp_var(rhs.span, id));
                lemma_assign_grows(cx, st1, span, time, var, op, t);
            }
        }
    }
}

proof fn lemma_temp_grows(cx: LowerCx, st: LowerSt, time: i32, ty: ScalarType, e: Sp<ExprV>)
    ensures
        grew(st.out, define_temp(cx, st, time, ty, e).0.out, time),
    decreases weight(e), 1nat,
{
    let (st1, tmp) = allocate(st, e.span, ty);
    if let Ok(id) = tmp {
        let assign = Spanned { span: e.span, value: AssignOpKind::Assign };
        lemma_assign_grows(cx, st1, e.span, time, temp_var(e.span, id), assign, e);
    }
}

proof fn lemma_direct_grows(
    cx: LowerCx,
    st: LowerSt,
    span: Span,
    time: i32,
    var: Sp<VarV>,
    eq_span: Span,
    rhs_span: Span,
    a: Sp<ExprV>,
    op: Sp<BinopKind>,
    b: Sp<ExprV>,
)
    ensures
        grew(
            st.out,
            direct_binop(cx, st, span, time, var, eq_span, rhs_span, a, op, b).0.out,
            time,
        ),
    decreases weight(a) + weight(b), 3nat,
{
    let simple_a = simple_arg(cx.regs, st.vars, a);
    let simple_b = simple_arg(cx.regs, st.vars, b);
    if lower_var(cx.regs, st.vars, var) is Ok && simple_a is Ok && simple_b is Ok && !(simple_a->Ok_0
        is Some && simple_b->Ok_0 is Some) {
        let first = simple_a->Ok_0 is None;
        let part = if first {
            a
        } else {
            b
        };
        let other = if first {
            b
        } else {
            a
        };
        let assign = Spanned { span: part.span, value: AssignOpKind::Assign };
        if uses_var(other, var.value) {
            if let Ok(ty) = shallow_type(cx.regs, st.vars, part) {
                lemma_temp_grows(cx, st, time, ty, part);
                let (st1, tmp) = define_temp(cx, st, time, ty, part);
                if let Ok(id) = tmp {
                    let t = var_expr(temp_var(part.span, id));
                    if first {
                        lemma_direct_grows(cx, st1, span, time, var, eq_span, rhs_span, t, op, b);
                    } else {
                        lemma_direct_grows(cx, st1, span, time, var, eq_span, rhs_span, a, op, t);
                    }
                }
            }
        } else {
            lemma_assign_grows(cx, st, part.span, time, var, assign, part);
            let (st1, _) = assign_op(cx, st, part.span, time, var, assign, part);
            let t = var_expr(var);
            if first {
                lemma_direct_grows(cx, st1, span, time, var, eq_span, rhs_span, t, op, b);
            } else {
                lemma_direct_grows(cx, st1, span, time, var, eq_span, rhs_span, a, op, t);
            }
        }
    }
}

proof fn lemma_cond_grows(
    cx: LowerCx,
    st: LowerSt,
    time: i32,
    a: Sp<ExprV>,
    op: Sp<BinopKind>,
    b: Sp<ExprV>,
    goto: GotoV,
)
    ensures
        grew(st.out, cond_jump_binop(cx, st, time, a, op, b, goto).0.out, time),
    decreases weight(a) + weight(b),
{
    match (simple_arg(cx.regs, st.vars, a), simple_arg(cx.regs, st.vars, b)) {
        (Ok(None), Ok(_)) => {
            if let Ok(ty) = shallow_type(cx.regs, st.vars, a) {
                lemma_temp_grows(cx, st, time, ty, a);
                let (st1, tmp) = define_temp(cx, st, time, ty, a);
                if let Ok(id) = tmp {
                    lemma_cond_grows(cx, st1, time, var_expr(temp_var(a.span, id)), op, b, goto);
                }
            }
        },
        (Ok(Some((_, ty))), Ok(None)) => {
            lemma_temp_grows(cx, st, time, ty, b);
            let (st1, tmp) = define_temp(cx, st, time, ty, b);
            if let Ok(id) = tmp {
                lemma_cond_grows(cx, st1, time, a, op, var_expr(temp_var(b.span, id)), goto);
            }
        },
        _ => {},
    }
}

proof fn lemma_args_grow(
    cx: LowerCx,
    st: LowerSt,
    time: i32,
    name: Sp<Seq<char>>,
    encodings: Seq<ArgEncoding>,
    args: Seq<Sp<ExprV>>,
    n: nat,
)
    ensures
        grew(st.out, lower_args(cx, st, time, name, encodings, args, n).st.out, time),
    decreases n,
{
    if n > 0 {
        lemma_args_grow(cx, st, time, name, encodings, args, (n - 1) as nat);
        let before = lower_args(cx, st, time, name, encodings, args, (n - 1) as nat);
        let e = args[n - 1];
        if let Ok(ty) = shallow_type(cx.regs, before.st.vars, e) {
            lemma_temp_grows(cx, before.st, time, ty, e);
        }
    }
}

proof fn lemma_labels_grow(st: LowerSt, labels: Seq<Sp<LabelV>>, n: nat, time: i32)
    ensures
        grew(st.out, lower_labels(st, labels, n).0.out, time),
    decreases n,
{
    if n > 0 {
        lemma_labels_grow(st, labels, (n - 1) as nat, time);
    }
}

/// The code of a statement is added to the code before it, and all its instructions have the time
/// of the statement.
pub proof fn law_code_has_the_time_of_its_statement<F: InstrFormat>(
    cx: LowerCx,
    format: F,
    sub: SubSt,
    stmt: StmtV,
)
    ensures
        grew(sub.st.out, lower_stmt(cx, format, sub, stmt).st.out, stmt.time),
{
    let time = stmt.time;
    lemma_labels_grow(sub.st, stmt.labels, stmt.labels.len(), time);
    let st = lower_labels(sub.st, stmt.labels, stmt.labels.len()).0;
    match stmt.body.value {
        BodyV::Assignment { var, op, value } => lemma_assign_grows(
            cx,
            st,
            stmt.body.span,
            time,
            var,
            op,
            value,
        ),
        BodyV::CondJump { keyword, cond, jump } => {
            if let CondV::Expr(e) = cond.value {
                if let ExprV::Binop(a, op, b) = e.value {
                    lemma_cond_grows(cx, st, time, *a, op, *b, jump);
                }
            }
        },
        BodyV::Expr(e) => {
            if let ExprV::Call { func, args } = e.value {
                let name = cx.regs.resolve_func_aliases_spec(func.value);
                if let Some(opcode) = as_ins_spec(name) {
                    if let Some(encodings) = cx.regs.ins_signature_spec(opcode) {
                        lemma_args_grow(cx, st, time, func, encodings, args, args.len());
                    }
                }
            }
        },
        _ => {},
    }
}

} // verus!
