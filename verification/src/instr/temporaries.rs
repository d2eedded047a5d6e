//! How long temporaries live in lowered code.

use crate::error::ErrorV;
use crate::ident::as_ins_spec;
use crate::instr::format::InstrFormat;
use crate::instr::labels::{
    encode_labels_spec, encode_stmts, gather_label_info_spec, LabelInfoV,
};
use crate::instr::laws::lemma_encoded_args;
use crate::instr::lower::{
    allocate, assign_op, cond_jump_binop, define_temp, direct_binop, emit, frees, goto_args,
    lower_args, lower_labels, lower_stmt, lower_sub_ast, lower_var, release, simple_arg, temp_var,
    uses_var, var_expr, weight, LowerCx, LowerSt, SubSt,
};
use crate::instr::meaning::extends;
use crate::instr::registers::{
    assign_arg, assign_args, assign_registers_spec, assign_stmt, assign_stmts, index_of, reg_cx,
    select, var_ty, Held, RegCx, RegSt,
};
use crate::instr::{get_opcode_spec, InstrArgV, InstrV, IntrinsicInstrKind, LowV, RawArg};
use crate::pos::{Sp, Span, Spanned};
use crate::scope::{VarId, VarInfoV};
use crate::script::{AssignOpKind, BinopKind, BodyV, CondV, ExprV, GotoV, LabelV, StmtV, VarV};
use crate::type_system::{shallow_type, ArgEncoding, RegsAndInstrs, ScalarType};
use vstd::prelude::*;

verus! {

/// The temporaries that are alive after a statement, the youngest last.  `None` if one begins to
/// live that is alive or has no type, one ends that is not the youngest, or an argument is not
/// alive.
pub open spec fn live_after(vars: Seq<VarInfoV>, live: Seq<VarId>, stmt: LowV) -> Option<
    Seq<VarId>,
> {
    match stmt {
        LowV::RegAlloc { var, .. } => if var_ty(vars, var) is Some && !live.contains(var) {
            Some(live.push(var))
        } else {
            None
        },
        LowV::RegFree { var } => if live.len() > 0 && live.last() == var {
            Some(live.drop_last())
        } else {
            None
        },
        LowV::Instr(instr) => if args_live(live, instr.args) {
            Some(live)
        } else {
            None
        },
        LowV::Label(_) => Some(live),
    }
}

pub open spec fn args_live(live: Seq<VarId>, args: Seq<InstrArgV>) -> bool {
    forall|i: int|
        0 <= i < args.len() ==> ((#[trigger] args[i]) matches InstrArgV::Local(id)
            ==> live.contains(id))
}

/// The temporaries that are alive at the end of code.
pub open spec fn live_at_end(vars: Seq<VarInfoV>, code: Seq<LowV>) -> Option<Seq<VarId>>
    decreases code.len(),
{
    if code.len() == 0 {
        Some(seq![])
    } else {
        match live_at_end(vars, code.drop_last()) {
            None => None,
            Some(live) => live_after(vars, live, code.last()),
        }
    }
}

/// Whether given temporaries are alive after the code that there is so far.
pub open spec fn balanced(st: LowerSt, live: Seq<VarId>) -> bool {
    &&& live_at_end(st.vars, st.out) == Some(live)
    &&& forall|i: int| 0 <= i < live.len() ==> (#[trigger] live[i]).0 < st.vars.len()
}

/// Whether a variable is in a register or alive.
pub open spec fn var_live(regs: RegsAndInstrs, live: Seq<VarId>, var: VarV) -> bool {
    regs.reg_id_spec(var) is None ==> (var matches VarV::Local { var_id, .. } ==> live.contains(
        var_id,
    ))
}

/// Whether all operands of an expression are in registers or alive.
pub open spec fn expr_live(regs: RegsAndInstrs, live: Seq<VarId>, e: Sp<ExprV>) -> bool
    decreases e,
{
    match e.value {
        ExprV::Var(var) => var_live(regs, live, var.value),
        ExprV::Binop(a, _, b) => expr_live(regs, live, *a) && expr_live(regs, live, *b),
        _ => true,
    }
}

proof fn lemma_expr_stays_live(regs: RegsAndInstrs, live: Seq<VarId>, id: VarId, e: Sp<ExprV>)
    requires
        expr_live(regs, live, e),
    ensures
        expr_live(regs, live.push(id), e),
    decreases e,
{
    match e.value {
        ExprV::Binop(a, _, b) => {
            lemma_expr_stays_live(regs, live, id, *a);
            lemma_expr_stays_live(regs, live, id, *b);
        },
        ExprV::Var(var) => lemma_var_stays_live(regs, live, id, var.value),
        _ => {},
    }
}

proof fn lemma_var_stays_live(regs: RegsAndInstrs, live: Seq<VarId>, id: VarId, var: VarV)
    requires
        var_live(regs, live, var),
    ensures
        var_live(regs, live.push(id), var),
        live.push(id).contains(id),
{
    assert(live.push(id)[live.len() as int] == id);
    if let VarV::Local { var_id, .. } = var {
        if live.contains(var_id) {
            let i = live.index_of(var_id);
            assert(live.push(id)[i] == var_id);
        }
    }
}

proof fn lemma_more_vars(vars: Seq<VarInfoV>, more: Seq<VarInfoV>, code: Seq<LowV>)
    requires
        extends(vars, more),
        live_at_end(vars, code) is Some,
    ensures
        live_at_end(more, code) == live_at_end(vars, code),
    decreases code.len(),
{
    if code.len() > 0 {
        lemma_more_vars(vars, more, code.drop_last());
    }
}

proof fn lemma_live_push(vars: Seq<VarInfoV>, code: Seq<LowV>, stmt: LowV)
    requires
        live_at_end(vars, code) is Some,
    ensures
        live_at_end(vars, code.push(stmt)) == live_after(vars, live_at_end(vars, code)->0, stmt),
{
    assert(code.push(stmt).drop_last() =~= code);
}

/// The argument for an operand that is alive is alive.
proof fn lemma_arg_live(cx: LowerCx, st: LowerSt, live: Seq<VarId>, e: Sp<ExprV>)
    requires
        expr_live(cx.regs, live, e),
    ensures
        simple_arg(cx.regs, st.vars, e) matches Ok(Some((InstrArgV::Local(id), _)))
            ==> live.contains(id),
{
}

proof fn lemma_emit_balanced(
    cx: LowerCx,
    st: LowerSt,
    live: Seq<VarId>,
    time: i32,
    kind: IntrinsicInstrKind,
    span: Span,
    args: Seq<InstrArgV>,
)
    requires
        balanced(st, live),
        args_live(live, args),
    ensures
        balanced(emit(cx, st, time, kind, span, args).0, live),
        emit(cx, st, time, kind, span, args).0.vars == st.vars,
{
    if let Ok(opcode) = get_opcode_spec(cx.pairs, kind, span) {
        lemma_live_push(st.vars, st.out, LowV::Instr(InstrV { time, opcode, args }));
    }
}

proof fn lemma_release_balanced(st: LowerSt, live: Seq<VarId>, id: VarId)
    requires
        balanced(st, live.push(id)),
    ensures
        balanced(release((st, None), id).0, live),
{
    lemma_live_push(st.vars, st.out, LowV::RegFree { var: id });
    assert(live.push(id).drop_last() =~= live);
    assert forall|i: int| 0 <= i < live.len() implies (#[trigger] live[i]).0 < st.vars.len() by {
        assert(live.push(id)[i] == live[i]);
    }
}

proof fn lemma_assign_balanced(
    cx: LowerCx,
    st: LowerSt,
    live: Seq<VarId>,
    span: Span,
    time: i32,
    var: Sp<VarV>,
    op: Sp<AssignOpKind>,
    rhs: Sp<ExprV>,
)
    requires
        balanced(st, live),
        var_live(cx.regs, live, var.value),
        expr_live(cx.regs, live, rhs),
        assign_op(cx, st, span, time, var, op, rhs).1 is None,
    ensures
        balanced(assign_op(cx, st, span, time, var, op, rhs).0, live),
        extends(st.vars, assign_op(cx, st, span, time, var, op, rhs).0.vars),
    decreases
            weight(rhs),
            if op.value is Assign {
                0nat
            } else {
                2nat
            },
{
    if op.value is Assign && rhs.value is Binop {
        lemma_direct_balanced(
            cx,
            st,
            live,
            span,
            time,
            var,
            op.span,
            rhs.span,
            *rhs.value->Binop_0,
            rhs.value->Binop_1,
            *rhs.value->Binop_2,
        );
    } else {
        let (arg_var, ty) = lower_var(cx.regs, st.vars, var)->Ok_0;
        match simple_arg(cx.regs, st.vars, rhs)->Ok_0 {
            Some((arg_rhs, _)) => {
                lemma_arg_live(cx, st, live, rhs);
                let args = seq![arg_var, arg_rhs];
                assert(args[0] == arg_var && args[1] == arg_rhs);
                lemma_emit_balanced(
                    cx,
                    st,
                    live,
                    time,
                    IntrinsicInstrKind::AssignOp(op.value, ty),
                    span,
                    args,
                );
            },
            None => {
                let (st1, tmp) = define_temp(cx, st, time, ty, rhs);
                let id = tmp->Ok_0;
                let t = var_expr(temp_var(rhs.span, id));
                lemma_temp_balanced(cx, st, live, time, ty, rhs);
                lemma_var_stays_live(cx.regs, live, id, var.value);
                lemma_assign_balanced(cx, st1, live.push(id), span, time, var, op, t);
                let (st2, _) = assign_op(cx, st1, span, time, var, op, t);
                lemma_release_balanced(st2, live, id);
            },
        }
    }
}

proof fn lemma_temp_balanced(
    cx: LowerCx,
    st: LowerSt,
    live: Seq<VarId>,
    time: i32,
    ty: ScalarType,
    e: Sp<ExprV>,
)
    requires
        balanced(st, live),
        expr_live(cx.regs, live, e),
        define_temp(cx, st, time, ty, e).1 is Ok,
    ensures
        balanced(
            define_temp(cx, st, time, ty, e).0,
            live.push(define_temp(cx, st, time, ty, e).1->Ok_0),
        ),
        extends(st.vars, define_temp(cx, st, time, ty, e).0.vars),
    decreases weight(e), 1nat,
{
    let (st1, tmp) = allocate(st, e.span, ty);
    let id = tmp->Ok_0;
    let assign = Spanned { span: e.span, value: AssignOpKind::Assign };
    let t = temp_var(e.span, id);
    assert(!live.contains(id));
    lemma_more_vars(st.vars, st1.vars, st.out);
    lemma_live_push(st1.vars, st.out, LowV::RegAlloc { var: id, cause: e.span });
    assert forall|i: int| 0 <= i < live.push(id).len() implies (#[trigger] live.push(id)[i]).0
        < st1.vars.len() by {
        if i < live.len() {
            assert(live.push(id)[i] == live[i]);
        }
    }
    lemma_expr_stays_live(cx.regs, live, id, e);
    assert(live.push(id)[live.len() as int] == id);
    lemma_assign_balanced(cx, st1, live.push(id), e.span, time, t, assign, e);
}

proof fn lemma_direct_balanced(
    cx: LowerCx,
    st: LowerSt,
    live: Seq<VarId>,
    span: Span,
    time: i32,
    var: Sp<VarV>,
    eq_span: Span,
    rhs_span: Span,
    a: Sp<ExprV>,
    op: Sp<BinopKind>,
    b: Sp<ExprV>,
)
    requires
        balanced(st, live),
        var_live(cx.regs, live, var.value),
        expr_live(cx.regs, live, a),
        expr_live(cx.regs, live, b),
        direct_binop(cx, st, span, time, var, eq_span, rhs_span, a, op, b).1 is None,
    ensures
        balanced(
            direct_binop(cx, st, span, time, var, eq_span, rhs_span, a, op, b).0,
            live,
        ),
        extends(
            st.vars,
            direct_binop(cx, st, span, time, var, eq_span, rhs_span, a, op, b).0.vars,
        ),
    decreases weight(a) + weight(b), 3nat,
{
    let (arg_var, ty_var) = lower_var(cx.regs, st.vars, var)->Ok_0;
    let simple_a = simple_arg(cx.regs, st.vars, a)->Ok_0;
    let simple_b = simple_arg(cx.regs, st.vars, b)->Ok_0;
    if simple_a is Some && simple_b is Some {
        lemma_arg_live(cx, st, live, a);
        lemma_arg_live(cx, st, live, b);
        let (arg_a, _) = simple_a->0;
        let (arg_b, _) = simple_b->0;
        let args = seq![arg_var, arg_a, arg_b];
        assert(args[0] == arg_var && args[1] == arg_a && args[2] == arg_b);
        lemma_emit_balanced(
            cx,
            st,
            live,
            time,
            IntrinsicInstrKind::Binop(op.value, ty_var),
            span,
            args,
        );
    } else {
        let first = simple_a is None;
        let part = if first {
            a
        } else {
            b
        };
        let other = if first {
            b
        } else {
            a
        };
        let assign = Spanned { span: part.span, value: AssignOpKind::Assign };
        if uses_var(other, var.value) {
            let ty = shallow_type(cx.regs, st.vars, part)->Ok_0;
            let (st1, tmp) = define_temp(cx, st, time, ty, part);
            let id = tmp->Ok_0;
            let t = var_expr(temp_var(part.span, id));
            let a2 = if first {
                t
            } else {
                a
            };
            let b2 = if first {
                b
            } else {
                t
            };
            lemma_temp_balanced(cx, st, live, time, ty, part);
            lemma_var_stays_live(cx.regs, live, id, var.value);
            lemma_expr_stays_live(cx.regs, live, id, other);
            lemma_direct_balanced(
                cx,
                st1,
                live.push(id),
                span,
                time,
                var,
                eq_span,
                rhs_span,
                a2,
                op,
                b2,
            );
            let (st2, _) = direct_binop(cx, st1, span, time, var, eq_span, rhs_span, a2, op, b2);
            lemma_release_balanced(st2, live, id);
        } else {
            let a2 = if first {
                var_expr(var)
            } else {
                a
            };
            let b2 = if first {
                b
            } else {
                var_expr(var)
            };
            lemma_assign_balanced(cx, st, live, part.span, time, var, assign, part);
            let (st1, _) = assign_op(cx, st, part.span, time, var, assign, part);
            lemma_direct_balanced(
                cx,
                st1,
                live,
                span,
                time,
                var,
                eq_span,
                rhs_span,
                a2,
                op,
                b2,
            );
        }
    }
}

proof fn lemma_cond_balanced(
    cx: LowerCx,
    st: LowerSt,
    live: Seq<VarId>,
    time: i32,
    a: Sp<ExprV>,
    op: Sp<BinopKind>,
    b: Sp<ExprV>,
    goto: GotoV,
)
    requires
        balanced(st, live),
        expr_live(cx.regs, live, a),
        expr_live(cx.regs, live, b),
        cond_jump_binop(cx, st, time, a, op, b, goto).1 is None,
    ensures
        balanced(cond_jump_binop(cx, st, time, a, op, b, goto).0, live),
    decreases weight(a) + weight(b),
{
    let simple_a = simple_arg(cx.regs, st.vars, a)->Ok_0;
    let simple_b = simple_arg(cx.regs, st.vars, b)->Ok_0;
    if simple_a is Some && simple_b is Some {
        lemma_arg_live(cx, st, live, a);
        lemma_arg_live(cx, st, live, b);
        let (arg_a, ty) = simple_a->0;
        let (arg_b, _) = simple_b->0;
        let args = seq![arg_a, arg_b, goto_args(goto).0, goto_args(goto).1];
        assert(args[0] == arg_a && args[1] == arg_b);
        lemma_emit_balanced(
            cx,
            st,
            live,
            time,
            IntrinsicInstrKind::CondJmp(op.value, ty),
            op.span,
            args,
        );
    } else {
        let first = simple_a is None;
        let part = if first {
            a
        } else {
            b
        };
        let other = if first {
            b
        } else {
            a
        };
        let ty = if first {
            shallow_type(cx.regs, st.vars, a)->Ok_0
        } else {
            let (_, ty) = simple_a->0;
            ty
        };
        let (st1, tmp) = define_temp(cx, st, time, ty, part);
        let id = tmp->Ok_0;
        let t = var_expr(temp_var(part.span, id));
        let a2 = if first {
            t
        } else {
            a
        };
        let b2 = if first {
            b
        } else {
            t
        };
        lemma_temp_balanced(cx, st, live, time, ty, part);
        lemma_expr_stays_live(cx.regs, live, id, other);
        assert(live.push(id)[live.len() as int] == id);
        lemma_cond_balanced(cx, st1, live.push(id), time, a2, op, b2, goto);
        let (st2, _) = cond_jump_binop(cx, st1, time, a2, op, b2, goto);
        lemma_release_balanced(st2, live, id);
    }
}

/// Lowered arguments are alive together with their temporaries.
proof fn lemma_args_balanced(
    cx: LowerCx,
    st: LowerSt,
    time: i32,
    name: Sp<Seq<char>>,
    encodings: Seq<ArgEncoding>,
    args: Seq<Sp<ExprV>>,
    n: nat,
)
    requires
        balanced(st, seq![]),
        n <= args.len(),
        forall|i: int| 0 <= i < args.len() ==> expr_live(cx.regs, seq![], #[trigger] args[i]),
        lower_args(cx, st, time, name, encodings, args, n).errors.len() == 0,
    ensures
        ({
            let low = lower_args(cx, st, time, name, encodings, args, n);
            balanced(low.st, low.temps) && args_live(low.temps, low.args)
        }),
    decreases n,
{
    if n > 0 {
        let before = lower_args(cx, st, time, name, encodings, args, (n - 1) as nat);
        let low = lower_args(cx, st, time, name, encodings, args, n);
        assert(before.errors.len() == 0);
        lemma_args_balanced(cx, st, time, name, encodings, args, (n - 1) as nat);
        let e = args[n - 1];
        lemma_grown_live(cx.regs, before.temps, e);
        match simple_arg(cx.regs, before.st.vars, e)->Ok_0 {
            Some(_) => {
                lemma_arg_live(cx, before.st, before.temps, e);
            },
            None => {
                let ty = shallow_type(cx.regs, before.st.vars, e)->Ok_0;
                let (st1, tmp) = define_temp(cx, before.st, time, ty, e);
                let id = tmp->Ok_0;
                lemma_temp_balanced(cx, before.st, before.temps, time, ty, e);
                assert(low.temps == before.temps.push(id));
                assert(low.temps[before.temps.len() as int] == id);
                assert forall|i: int| 0 <= i < low.args.len() implies (#[trigger] low.args[i]
                    matches InstrArgV::Local(x) ==> low.temps.contains(x)) by {
                    if i < before.args.len() {
                        assert(low.args[i] == before.args[i]);
                        if let InstrArgV::Local(x) = before.args[i] {
                            let k = before.temps.index_of(x);
                            assert(low.temps[k] == x);
                        }
                    }
                }
            },
        }
    }
}

/// What is alive with no temporaries is alive with any.
proof fn lemma_grown_live(regs: RegsAndInstrs, live: Seq<VarId>, e: Sp<ExprV>)
    requires
        expr_live(regs, seq![], e),
    ensures
        expr_live(regs, live, e),
    decreases live.len(),
{
    if live.len() == 0 {
        assert(live =~= seq![]);
    } else {
        lemma_grown_live(regs, live.drop_last(), e);
        lemma_expr_stays_live(regs, live.drop_last(), live.last(), e);
        assert(live.drop_last().push(live.last()) =~= live);
    }
}

/// Temporaries that end in the opposite order all end.
proof fn lemma_frees(vars: Seq<VarInfoV>, code: Seq<LowV>, temps: Seq<VarId>)
    requires
        live_at_end(vars, code) == Some(temps),
    ensures
        live_at_end(vars, code + frees(temps)) == Some(Seq::<VarId>::empty()),
    decreases temps.len(),
{
    if temps.len() == 0 {
        assert(code + frees(temps) =~= code);
        assert(temps =~= seq![]);
    } else {
        let free = LowV::RegFree { var: temps.last() };
        lemma_live_push(vars, code, free);
        lemma_frees(vars, code.push(free), temps.drop_last());
        assert(code + frees(temps) =~= code.push(free) + frees(temps.drop_last()));
    }
}

proof fn lemma_labels_balanced(st: LowerSt, labels: Seq<Sp<LabelV>>, n: nat)
    requires
        balanced(st, seq![]),
    ensures
        balanced(lower_labels(st, labels, n).0, seq![]),
    decreases n,
{
    if n > 0 {
        lemma_labels_balanced(st, labels, (n - 1) as nat);
        let (st1, _) = lower_labels(st, labels, (n - 1) as nat);
        if let LabelV::Label(ident) = labels[n - 1].value {
            lemma_live_push(st1.vars, st1.out, LowV::Label(ident));
        }
    }
}

/// Whether a statement has no variable that is not in a register.
pub open spec fn in_registers(regs: RegsAndInstrs, body: BodyV) -> bool {
    match body {
        BodyV::Assignment { var, value, .. } => var_live(regs, seq![], var.value) && expr_live(
            regs,
            seq![],
            value,
        ),
        BodyV::CondJump { cond, .. } => match cond.value {
            CondV::Decrement(var) => var_live(regs, seq![], var.value),
            CondV::Expr(e) => expr_live(regs, seq![], e),
        },
        BodyV::Expr(e) => match e.value {
            ExprV::Call { args, .. } => forall|i: int|
                0 <= i < args.len() ==> expr_live(regs, seq![], #[trigger] args[i]),
            _ => true,
        },
        _ => true,
    }
}

proof fn lemma_stmt_balanced<F: InstrFormat>(cx: LowerCx, format: F, sub: SubSt, stmt: StmtV)
    requires
        balanced(sub.st, seq![]),
        in_registers(cx.regs, stmt.body.value),
        lower_stmt(cx, format, sub, stmt).errors.len() == 0,
    ensures
        balanced(lower_stmt(cx, format, sub, stmt).st, seq![]),
{
    let none: Seq<VarId> = seq![];
    let time = stmt.time;
    let span = stmt.body.span;
    lemma_labels_balanced(sub.st, stmt.labels, stmt.labels.len());
    let (st, err) = lower_labels(sub.st, stmt.labels, stmt.labels.len());
    assert(err is None);
    match stmt.body.value {
        BodyV::Jump(goto) => {
            let args = seq![goto_args(goto).0, goto_args(goto).1];
            lemma_emit_balanced(cx, st, none, time, IntrinsicInstrKind::Jmp, span, args);
        },
        BodyV::Assignment { var, op, value } => {
            assert(assign_op(cx, st, span, time, var, op, value).1 is None);
            lemma_assign_balanced(cx, st, none, span, time, var, op, value);
        },
        BodyV::InterruptLabel(n) => {
            let arg = InstrArgV::Raw(
                RawArg { bits: n.value as u32, is_var: false },
            );
            lemma_emit_balanced(
                cx,
                st,
                none,
                time,
                IntrinsicInstrKind::InterruptLabel,
                span,
                seq![arg],
            );
        },
        BodyV::CondJump { keyword, cond, jump } => match cond.value {
            CondV::Decrement(var) => {
                let (arg, _) = lower_var(cx.regs, st.vars, var)->Ok_0;
                let args = seq![arg, goto_args(jump).0, goto_args(jump).1];
                assert(args[0] == arg);
                lemma_emit_balanced(cx, st, none, time, IntrinsicInstrKind::CountJmp, span, args);
            },
            CondV::Expr(e) => {
                if let ExprV::Binop(a, op, b) = e.value {
                    assert(cond_jump_binop(cx, st, time, *a, op, *b, jump).1 is None);
                    lemma_cond_balanced(cx, st, none, time, *a, op, *b, jump);
                }
            },
        },
        BodyV::Expr(e) => {
            if let ExprV::Call { func, args } = e.value {
                let name = cx.regs.resolve_func_aliases_spec(func.value);
                if let Some(opcode) = as_ins_spec(name) {
                    if let Some(encodings) = cx.regs.ins_signature_spec(opcode) {
                        let low = lower_args(cx, st, time, func, encodings, args, args.len());
                        if low.errors.len() == 0 {
                            lemma_args_balanced(cx, st, time, func, encodings, args, args.len());
                            let instr = LowV::Instr(InstrV { time, opcode, args: low.args });
                            lemma_live_push(low.st.vars, low.st.out, instr);
                            lemma_frees(low.st.vars, low.st.out.push(instr), low.temps);
                        }
                    }
                }
            }
        },
        BodyV::Label(ident) => {
            lemma_live_push(st.vars, st.out, LowV::Label(ident));
        },
        _ => {},
    }
}

/// In code that was lowered without errors, from statements whose variables are in registers,
/// every temporary that an instruction names is alive there, the one that was born last ends
/// first, and none is left at the end.
pub proof fn law_temporaries_are_balanced<F: InstrFormat>(
    cx: LowerCx,
    format: F,
    vars: Seq<VarInfoV>,
    code: Seq<Sp<StmtV>>,
    n: nat,
)
    requires
        n <= code.len(),
        forall|i: int|
            0 <= i < code.len() ==> in_registers(cx.regs, (#[trigger] code[i]).value.body.value),
        lower_sub_ast(cx, format, (LowerSt { out: seq![], vars }), code, n).errors.len() == 0,
    ensures
        ({
            let st = lower_sub_ast(cx, format, (LowerSt { out: seq![], vars }), code, n).st;
            live_at_end(st.vars, st.out) == Some(Seq::<VarId>::empty())
        }),
{
    lemma_code_balanced(cx, format, vars, code, n);
}

proof fn lemma_code_balanced<F: InstrFormat>(
    cx: LowerCx,
    format: F,
    vars: Seq<VarInfoV>,
    code: Seq<Sp<StmtV>>,
    n: nat,
)
    requires
        n <= code.len(),
        forall|i: int|
            0 <= i < code.len() ==> in_registers(cx.regs, (#[trigger] code[i]).value.body.value),
        lower_sub_ast(cx, format, (LowerSt { out: seq![], vars }), code, n).errors.len() == 0,
    ensures
        balanced(lower_sub_ast(cx, format, (LowerSt { out: seq![], vars }), code, n).st, seq![]),
    decreases n,
{
    if n > 0 {
        let st = LowerSt { out: seq![], vars };
        let before = lower_sub_ast(cx, format, st, code, (n - 1) as nat);
        let stmt = code[n - 1].value;
        assert(lower_sub_ast(cx, format, st, code, n) == lower_stmt(cx, format, before, stmt));
        assert(before.errors.len() == 0);
        lemma_code_balanced(cx, format, vars, code, (n - 1) as nat);
        lemma_stmt_balanced(cx, format, before, stmt);
    }
}

// =============================================================================
// Registers

/// Putting the values of labels in place changes nothing about temporaries.
proof fn lemma_encoded_balanced<F: InstrFormat>(
    format: F,
    labels: Map<Seq<char>, LabelInfoV>,
    vars: Seq<VarInfoV>,
    code: Seq<LowV>,
    n: nat,
)
    requires
        n <= code.len(),
        live_at_end(vars, code.take(n as int)) is Some,
    ensures
        live_at_end(vars, encode_stmts(format, labels, code, n).0) == live_at_end(
            vars,
            code.take(n as int),
        ),
    decreases n,
{
    if n == 0 {
        assert(code.take(0) =~= seq![]);
    } else {
        let (before, _) = encode_stmts(format, labels, code, (n - 1) as nat);
        let (out, _) = encode_stmts(format, labels, code, n);
        assert(code.take(n as int).drop_last() =~= code.take(n - 1));
        assert(code.take(n as int).last() == code[n - 1]);
        lemma_encoded_balanced(format, labels, vars, code, (n - 1) as nat);
        assert(out.drop_last() =~= before);
        if let LowV::Instr(instr) = code[n - 1] {
            lemma_encoded_args(format, labels, instr.args, instr.args.len());
            if let LowV::Instr(now) = out.last() {
                let live = live_at_end(vars, before)->0;
                assert forall|i: int| 0 <= i < now.args.len() implies (#[trigger] now.args[i]
                    matches InstrArgV::Local(id) ==> live.contains(id)) by {
                    assert(instr.args[i] == instr.args[i]);
                }
            }
        }
    }
}

/// Whether exactly the given temporaries are held, in their order.
spec fn holds_all(held: Seq<Held>, live: Seq<VarId>) -> bool {
    &&& held.len() == live.len()
    &&& forall|i: int| 0 <= i < live.len() ==> (#[trigger] held[i]).var == live[i]
}

// =============================================================================
// How many registers it takes

/// Where a temporary is among some.
pub open spec fn index_in(live: Seq<VarId>, var: VarId) -> Option<int>
    decreases live.len(),
{
    if live.len() == 0 {
        None
    } else if live.last() == var {
        Some(live.len() - 1)
    } else {
        index_in(live.drop_last(), var)
    }
}

/// The temporaries that are alive after a statement, which may end in any order.  `None` if one
/// begins to live that is alive or has no type, or one ends or is named that is not alive.
pub open spec fn in_use_after(vars: Seq<VarInfoV>, live: Seq<VarId>, stmt: LowV) -> Option<
    Seq<VarId>,
> {
    match stmt {
        LowV::RegAlloc { var, .. } => if var_ty(vars, var) is Some && index_in(live, var) is None {
            Some(live.push(var))
        } else {
            None
        },
        LowV::RegFree { var } => match index_in(live, var) {
            Some(i) => Some(live.remove(i)),
            None => None,
        },
        LowV::Instr(instr) => if forall|i: int|
            0 <= i < instr.args.len() ==> ((#[trigger] instr.args[i]) matches InstrArgV::Local(id)
                ==> index_in(live, id) is Some) {
            Some(live)
        } else {
            None
        },
        LowV::Label(_) => Some(live),
    }
}

/// The temporaries that are alive after the first `n` statements.
pub open spec fn in_use(vars: Seq<VarInfoV>, code: Seq<LowV>, n: nat) -> Option<Seq<VarId>>
    decreases n,
{
    if n == 0 {
        Some(seq![])
    } else {
        match in_use(vars, code, (n - 1) as nat) {
            None => None,
            Some(live) => in_use_after(vars, live, code[n - 1]),
        }
    }
}

/// How many of some temporaries have a type.
pub open spec fn num_of_type(vars: Seq<VarInfoV>, live: Seq<VarId>, ty: ScalarType) -> nat
    decreases live.len(),
{
    if live.len() == 0 {
        0
    } else {
        num_of_type(vars, live.drop_last(), ty) + if var_ty(vars, live.last()) == Some(ty) {
            1nat
        } else {
            0nat
        }
    }
}

/// How many registers of a type the script leaves.
pub open spec fn num_registers(cx: RegCx, ty: ScalarType) -> nat {
    select(cx.regs(ty), cx.used, false).len()
}

/// Whether no more temporaries of a type are alive at once than registers are left, after each of
/// the first `n` statements.
pub open spec fn registers_suffice(cx: RegCx, code: Seq<LowV>, n: nat) -> bool
    decreases n,
{
    &&& n > 0 ==> registers_suffice(cx, code, (n - 1) as nat)
    &&& forall|ty: ScalarType| #[trigger]
        num_of_type(cx.vars, in_use(cx.vars, code, n)->0, ty) <= num_registers(cx, ty)
}

proof fn lemma_num_remove(vars: Seq<VarInfoV>, live: Seq<VarId>, i: int, ty: ScalarType)
    requires
        0 <= i < live.len(),
    ensures
        num_of_type(vars, live, ty) == num_of_type(vars, live.remove(i), ty) + if var_ty(
            vars,
            live[i],
        ) == Some(ty) {
            1nat
        } else {
            0nat
        },
    decreases live.len(),
{
    if i == live.len() - 1 {
        assert(live.remove(i) =~= live.drop_last());
    } else {
        lemma_num_remove(vars, live.drop_last(), i, ty);
        assert(live.remove(i).drop_last() =~= live.drop_last().remove(i));
        assert(live.remove(i).last() == live.last());
    }
}

proof fn lemma_index_agrees(held: Seq<Held>, live: Seq<VarId>, var: VarId)
    requires
        holds_all(held, live),
    ensures
        index_of(held, var) == index_in(live, var),
        index_in(live, var) matches Some(i) ==> 0 <= i < live.len() && live[i] == var,
    decreases live.len(),
{
    if live.len() > 0 {
        assert(held.last() == held[live.len() - 1]);
        lemma_index_agrees(held.drop_last(), live.drop_last(), var);
    }
}

/// Whether the registers hold the temporaries that are alive, and the others are free.
spec fn accounted(cx: RegCx, st: RegSt, live: Seq<VarId>) -> bool {
    &&& holds_all(st.held, live)
    &&& forall|i: int| 0 <= i < live.len() ==> var_ty(cx.vars, #[trigger] live[i]) is Some
    &&& st.free(ScalarType::Int).len() + num_of_type(cx.vars, live, ScalarType::Int)
        == num_registers(cx, ScalarType::Int)
    &&& st.free(ScalarType::Float).len() + num_of_type(cx.vars, live, ScalarType::Float)
        == num_registers(cx, ScalarType::Float)
}

proof fn lemma_args_found(
    vars: Seq<VarInfoV>,
    held: Seq<Held>,
    live: Seq<VarId>,
    args: Seq<InstrArgV>,
    n: nat,
)
    requires
        n <= args.len(),
        holds_all(held, live),
        forall|i: int| 0 <= i < live.len() ==> var_ty(vars, #[trigger] live[i]) is Some,
        forall|i: int|
            0 <= i < args.len() ==> ((#[trigger] args[i]) matches InstrArgV::Local(id) ==> index_in(
                live,
                id,
            ) is Some),
    ensures
        assign_args(vars, held, args, n) is Ok,
    decreases n,
{
    if n > 0 {
        lemma_args_found(vars, held, live, args, (n - 1) as nat);
        if let InstrArgV::Local(id) = args[n - 1] {
            lemma_index_agrees(held, live, id);
        }
    }
}

/// One statement keeps the account, and fails just when it takes a register that there is not.
proof fn lemma_account_step(cx: RegCx, st: RegSt, live: Seq<VarId>, stmt: LowV)
    requires
        accounted(cx, st, live),
        in_use_after(cx.vars, live, stmt) is Some,
    ensures
        ({
            let after = in_use_after(cx.vars, live, stmt)->0;
            match assign_stmt(cx, st, stmt) {
                Ok((st1, _)) => accounted(cx, st1, after),
                Err(e) => e is OutOfRegisters && exists|ty: ScalarType| #[trigger]
                    num_of_type(cx.vars, after, ty) > num_registers(cx, ty),
            }
        }),
{
    let after = in_use_after(cx.vars, live, stmt)->0;
    match stmt {
        LowV::RegAlloc { var, .. } => {
            lemma_index_agrees(st.held, live, var);
            assert(after.drop_last() =~= live);
            let ty = var_ty(cx.vars, var)->0;
            if st.free(ty).len() == 0 {
                assert(num_of_type(cx.vars, after, ty) > num_registers(cx, ty));
            } else {
                assert forall|i: int| 0 <= i < after.len() implies var_ty(
                    cx.vars,
                    #[trigger] after[i],
                ) is Some by {
                    if i < live.len() {
                        assert(after[i] == live[i]);
                    }
                }
            }
        },
        LowV::RegFree { var } => {
            lemma_index_agrees(st.held, live, var);
            let i = index_in(live, var)->0;
            assert(var_ty(cx.vars, live[i]) is Some);
            lemma_num_remove(cx.vars, live, i, ScalarType::Int);
            lemma_num_remove(cx.vars, live, i, ScalarType::Float);
            let held = st.held.remove(i);
            assert forall|k: int| 0 <= k < after.len() implies (#[trigger] held[k]).var == after[k]
                && var_ty(cx.vars, after[k]) is Some by {
                if k < i {
                    assert(after[k] == live[k] && held[k] == st.held[k]);
                } else {
                    assert(after[k] == live[k + 1] && held[k] == st.held[k + 1]);
                }
            }
            assert forall|k: int| 0 <= k < after.len() implies var_ty(
                cx.vars,
                #[trigger] after[k],
            ) is Some by {
                assert(held[k].var == after[k]);
            }
        },
        LowV::Instr(instr) => {
            lemma_args_found(cx.vars, st.held, live, instr.args, instr.args.len());
        },
        LowV::Label(_) => {},
    }
}

proof fn lemma_account(cx: RegCx, code: Seq<LowV>, n: nat)
    requires
        n <= code.len(),
        in_use(cx.vars, code, n) is Some,
    ensures
        match assign_stmts(cx, code, n) {
            Ok((st, _)) => registers_suffice(cx, code, n) && accounted(
                cx,
                st,
                in_use(cx.vars, code, n)->0,
            ),
            Err(e) => !registers_suffice(cx, code, n) && e is OutOfRegisters,
        },
    decreases n,
{
    if n > 0 {
        lemma_account(cx, code, (n - 1) as nat);
        let live = in_use(cx.vars, code, (n - 1) as nat)->0;
        if let Ok((st, _)) = assign_stmts(cx, code, (n - 1) as nat) {
            lemma_account_step(cx, st, live, code[n - 1]);
            let after = in_use(cx.vars, code, n)->0;
            assert(after == in_use_after(cx.vars, live, code[n - 1])->0);
            if assign_stmt(cx, st, code[n - 1]) is Ok {
                assert forall|ty: ScalarType| #[trigger]
                    num_of_type(cx.vars, after, ty) <= num_registers(cx, ty) by {
                    match ty {
                        ScalarType::Int => {},
                        ScalarType::Float => {},
                    }
                }
            }
        }
    } else {
        let start = cx.start();
        assert forall|ty: ScalarType| #[trigger]
            num_of_type(cx.vars, Seq::<VarId>::empty(), ty) <= num_registers(cx, ty) by {}
    }
}

/// Code whose temporaries are named only while they are alive is given registers just when, for
/// either type, no more of them are alive at once than the script leaves registers.
pub proof fn law_registers_are_found_iff_they_suffice(cx: RegCx, code: Seq<LowV>)
    requires
        in_use(cx.vars, code, code.len()) is Some,
    ensures
        match assign_stmts(cx, code, code.len()) {
            Ok(_) => registers_suffice(cx, code, code.len()),
            Err(e) => !registers_suffice(cx, code, code.len()) && e is OutOfRegisters,
        },
{
    lemma_account(cx, code, code.len());
}

proof fn lemma_index_in(live: Seq<VarId>, var: VarId)
    ensures
        index_in(live, var) is Some <==> live.contains(var),
    decreases live.len(),
{
    if live.len() > 0 {
        lemma_index_in(live.drop_last(), var);
        if live.last() == var {
            assert(live[live.len() - 1] == var);
        } else if live.contains(var) {
            let i = live.index_of(var);
            assert(live.drop_last()[i] == var);
        } else if live.drop_last().contains(var) {
            let i = live.drop_last().index_of(var);
            assert(live[i] == var);
        }
    }
}

/// Temporaries of which the one that was born last ends first are alive for as long as they are
/// when they may end in any order.
proof fn lemma_live_is_in_use(vars: Seq<VarInfoV>, code: Seq<LowV>, n: nat)
    requires
        n <= code.len(),
        live_at_end(vars, code.take(n as int)) is Some,
    ensures
        in_use(vars, code, n) == live_at_end(vars, code.take(n as int)),
    decreases n,
{
    if n == 0 {
        assert(code.take(0) =~= seq![]);
    } else {
        assert(code.take(n as int).drop_last() =~= code.take(n - 1));
        assert(code.take(n as int).last() == code[n - 1]);
        lemma_live_is_in_use(vars, code, (n - 1) as nat);
        let live = live_at_end(vars, code.take(n - 1))->0;
        match code[n - 1] {
            LowV::RegAlloc { var, .. } => lemma_index_in(live, var),
            LowV::RegFree { var } => {
                assert(live.remove(live.len() - 1) =~= live.drop_last());
            },
            LowV::Instr(instr) => {
                assert forall|i: int| 0 <= i < instr.args.len() implies (#[trigger] instr.args[i]
                    matches InstrArgV::Local(id) ==> index_in(live, id) is Some) by {
                    if let InstrArgV::Local(id) = instr.args[i] {
                        lemma_index_in(live, id);
                    }
                }
            },
            LowV::Label(_) => {},
        }
    }
}

/// A script whose variables are in registers is given registers for its temporaries just when, for
/// either type, no more of them are alive at once than the script leaves registers.
pub proof fn law_only_too_few_registers_fail<F: InstrFormat>(
    cx: LowerCx,
    format: F,
    vars: Seq<VarInfoV>,
    code: Seq<Sp<StmtV>>,
)
    requires
        forall|i: int|
            0 <= i < code.len() ==> in_registers(cx.regs, (#[trigger] code[i]).value.body.value),
        lower_sub_ast(cx, format, (LowerSt { out: seq![], vars }), code, code.len()).errors.len()
            == 0,
    ensures
        ({
            let st = lower_sub_ast(
                cx,
                format,
                (LowerSt { out: seq![], vars }),
                code,
                code.len(),
            ).st;
            encode_labels_spec(format, 0, st.out) matches Ok(encoded) ==> {
                let rcx = reg_cx(format, st.vars, encoded);
                match assign_registers_spec(format, st.vars, encoded) {
                    Ok(_) => registers_suffice(rcx, encoded, encoded.len()),
                    Err(e) => !registers_suffice(rcx, encoded, encoded.len())
                        && e is OutOfRegisters,
                }
            }
        }),
{
    let st = lower_sub_ast(cx, format, LowerSt { out: seq![], vars }, code, code.len()).st;
    law_temporaries_are_balanced(cx, format, vars, code, code.len());
    if let Ok(encoded) = encode_labels_spec(format, 0, st.out) {
        let labels = gather_label_info_spec(format, 0, st.out)->Ok_0;
        assert(st.out.take(st.out.len() as int) =~= st.out);
        lemma_encoded_balanced(format, labels, st.vars, st.out, st.out.len());
        assert(encoded.take(encoded.len() as int) =~= encoded);
        lemma_live_is_in_use(st.vars, encoded, encoded.len());
        law_registers_are_found_iff_they_suffice(reg_cx(format, st.vars, encoded), encoded);
    }
}

/// Whether no temporary is held twice.
spec fn held_once(held: Seq<Held>) -> bool {
    forall|i: int, j: int|
        0 <= i < j < held.len() ==> (#[trigger] held[i]).var != (#[trigger] held[j]).var
}

proof fn lemma_held_at(held: Seq<Held>, var: VarId)
    ensures
        match index_of(held, var) {
            Some(i) => 0 <= i < held.len() && held[i].var == var,
            None => forall|k: int| 0 <= k < held.len() ==> (#[trigger] held[k]).var != var,
        },
    decreases held.len(),
{
    if held.len() > 0 {
        lemma_held_at(held.drop_last(), var);
        if index_of(held, var) is None {
            assert forall|k: int| 0 <= k < held.len() implies (#[trigger] held[k]).var != var by {
                if k < held.len() - 1 {
                    assert(held.drop_last()[k] == held[k]);
                }
            }
        }
    }
}

proof fn lemma_held_once(cx: RegCx, code: Seq<LowV>, n: nat)
    requires
        n <= code.len(),
    ensures
        assign_stmts(cx, code, n) matches Ok((st, _)) ==> held_once(st.held),
    decreases n,
{
    if n > 0 {
        lemma_held_once(cx, code, (n - 1) as nat);
        if let Ok((st, _)) = assign_stmts(cx, code, (n - 1) as nat) {
            match code[n - 1] {
                LowV::RegAlloc { var, .. } => lemma_held_at(st.held, var),
                LowV::RegFree { var } => {
                    lemma_held_at(st.held, var);
                    if let Some(p) = index_of(st.held, var) {
                        let held = st.held.remove(p);
                        assert forall|i: int, j: int| 0 <= i < j < held.len() implies (
                        #[trigger] held[i]).var != (#[trigger] held[j]).var by {
                            let a = if i < p {
                                i
                            } else {
                                i + 1
                            };
                            let b = if j < p {
                                j
                            } else {
                                j + 1
                            };
                            assert(held[i] == st.held[a] && held[j] == st.held[b]);
                        }
                    }
                },
                _ => {},
            }
        }
    }
}

/// The register that holds a temporary.
pub open spec fn register_of(st: RegSt, var: VarId) -> Option<i32> {
    match index_of(st.held, var) {
        Some(i) => Some(st.held[i].reg),
        None => None,
    }
}

/// A temporary keeps its register as long as it lives.
pub proof fn law_temporary_keeps_its_register(cx: RegCx, code: Seq<LowV>, n: nat, var: VarId)
    requires
        n < code.len(),
        code[n as int] matches LowV::RegFree { var: freed } ==> freed != var,
    ensures
        (assign_stmts(cx, code, n), assign_stmts(cx, code, n + 1)) matches (
            Ok((before, _)),
            Ok((after, _)),
        ) ==> (register_of(before, var) matches Some(reg) ==> register_of(after, var) == Some(reg)),
{
    lemma_held_once(cx, code, n);
    lemma_held_once(cx, code, n + 1);
    if let (Ok((before, _)), Ok((after, _))) = (
        assign_stmts(cx, code, n),
        assign_stmts(cx, code, n + 1),
    ) {
        lemma_held_at(before.held, var);
        lemma_held_at(after.held, var);
        if let Some(i) = index_of(before.held, var) {
            match code[n as int] {
                LowV::RegAlloc { .. } => {
                    assert(after.held[i] == before.held[i]);
                },
                LowV::RegFree { var: freed } => {
                    lemma_held_at(before.held, freed);
                    let p = index_of(before.held, freed)->0;
                    let k = if i < p {
                        i
                    } else {
                        i - 1
                    };
                    assert(after.held[k] == before.held[i]);
                },
                _ => {},
            }
        }
    }
}

proof fn lemma_assigned_arg(
    vars: Seq<VarInfoV>,
    held: Seq<Held>,
    args: Seq<InstrArgV>,
    n: nat,
    i: int,
)
    requires
        0 <= i < n <= args.len(),
    ensures
        assign_args(vars, held, args, n) matches Ok(out) ==> out.len() == n && assign_arg(
            vars,
            held,
            args[i],
        ) == Ok::<InstrArgV, ErrorV>(out[i]),
    decreases n,
{
    if i < n - 1 {
        lemma_assigned_arg(vars, held, args, (n - 1) as nat, i);
    } else if n > 1 {
        lemma_assigned_arg(vars, held, args, (n - 1) as nat, 0);
    }
}

/// Where an instruction names a temporary, the register that holds it takes its place, as one of
/// the type of the temporary; all other arguments stay.
pub proof fn law_arguments_become_registers(cx: RegCx, code: Seq<LowV>, n: nat, i: int)
    requires
        n < code.len(),
        code[n as int] matches LowV::Instr(instr) && 0 <= i < instr.args.len(),
    ensures
        (assign_stmts(cx, code, n), assign_stmts(cx, code, n + 1)) matches (
            Ok((st, _)),
            Ok((_, out)),
        ) ==> (out.last() matches LowV::Instr(now) && match code[n as int]->Instr_0.args[i] {
            InstrArgV::Local(var) => (register_of(st, var), var_ty(cx.vars, var)) matches (
                Some(reg),
                Some(ty),
            ) && now.args[i] == InstrArgV::Raw(RawArg::from_reg_spec(reg, ty)),
            arg => now.args[i] == arg,
        }),
{
    if let Ok((st, _)) = assign_stmts(cx, code, n) {
        let args = code[n as int]->Instr_0.args;
        lemma_assigned_arg(cx.vars, st.held, args, args.len(), i);
    }
}

} // verus!
