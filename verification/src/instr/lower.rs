//! Lowering of statements to instructions.
//!
//! An expression that no single instruction can hold is split up: a part of it is assigned to a
//! temporary first, and the temporary then takes its place.  A temporary lives from a
//! [`LowLevelStmt::RegAlloc`] to a [`LowLevelStmt::RegFree`].

use crate::error::{CompileError, Diagnostic, Error, ErrorV};
use crate::ident::{as_ins_spec, Ident};
use crate::instr::format::InstrFormat;
use crate::instr::labels::{encode_labels, encode_labels_spec};
use crate::instr::registers::{assign_registers, assign_registers_spec};
use crate::instr::{
    args_view, effective_pairs, get_opcode_spec, instrs_view, low_view, Instr, InstrArg, InstrArgV,
    InstrV, IntrinsicInstrKind, IntrinsicInstrs, LowLevelStmt, LowV, RawArg,
};
use crate::pos::{Sp, Span, Spanned};
use crate::scope::{ScopeId, VarId, VarInfoV};
use crate::script::{
    body_view, cond_view, expr_view, exprs_view, goto_view, ident_view, label_view,
    lemma_exprs_view, lemma_stmts_view, stmt_view, stmts_view, var_view, AssignOpKind, BinopKind,
    BodyV, Cond, CondKeyword, CondV, Expr, ExprV, GotoV, LabelV, Stmt, StmtBody, StmtGoto,
    StmtLabel, StmtV, Var, VarV,
};
use crate::type_system::{
    shallow_type, unpadded_len, var_type_spec, ArgEncoding, RegsAndInstrs, ScalarType, TypeSystem,
};
use vstd::prelude::*;

verus! {

/// What lowering looks up and never changes.
pub ghost struct LowerCx {
    pub regs: RegsAndInstrs,
    pub pairs: Seq<(IntrinsicInstrKind, u16)>,
}

/// What lowering adds to: the code, and the variables, of which temporaries are a part.
#[verifier::ext_equal]
pub ghost struct LowerSt {
    pub out: Seq<LowV>,
    pub vars: Seq<VarInfoV>,
}

impl LowerSt {
    pub open spec fn push(self, stmt: LowV) -> LowerSt {
        LowerSt { out: self.out.push(stmt), vars: self.vars }
    }
}

/// Add the instruction for an operation, if there is one.
pub open spec fn emit(
    cx: LowerCx,
    st: LowerSt,
    time: i32,
    kind: IntrinsicInstrKind,
    span: Span,
    args: Seq<InstrArgV>,
) -> (LowerSt, Option<ErrorV>) {
    match get_opcode_spec(cx.pairs, kind, span) {
        Ok(opcode) => (st.push(LowV::Instr(InstrV { time, opcode, args })), None),
        Err(e) => (st, Some(e)),
    }
}

/// A variable as an argument, with its type.
pub open spec fn lower_var(regs: RegsAndInstrs, vars: Seq<VarInfoV>, var: Sp<VarV>) -> Result<
    (InstrArgV, ScalarType),
    ErrorV,
> {
    match var_type_spec(regs, vars, var.value) {
        None => Err(Diagnostic::NeedsTypePrefix { span: var.span }),
        Some(ty) => match regs.reg_id_spec(var.value) {
            Some(reg) => Ok((InstrArgV::Raw(RawArg::from_reg_spec(reg, ty)), ty)),
            None => match var.value {
                VarV::Local { var_id, .. } => Ok((InstrArgV::Local(var_id), ty)),
                _ => Err(Diagnostic::UnrecognizedVariable { span: var.span }),
            },
        },
    }
}

/// A literal or a variable as an argument, with its type; `None` for any other expression.
pub open spec fn simple_arg(regs: RegsAndInstrs, vars: Seq<VarInfoV>, e: Sp<ExprV>) -> Result<
    Option<(InstrArgV, ScalarType)>,
    ErrorV,
> {
    match e.value {
        ExprV::LitInt { value, .. } => Ok(
            Some(
                (
                    InstrArgV::Raw(RawArg { bits: value as u32, is_var: false }),
                    ScalarType::Int,
                ),
            ),
        ),
        ExprV::LitFloat { value } => Ok(
            Some(
                (InstrArgV::Raw(RawArg { bits: value.bits, is_var: false }), ScalarType::Float),
            ),
        ),
        ExprV::Var(var) => match lower_var(regs, vars, var) {
            Ok(arg) => Ok(Some(arg)),
            Err(e) => Err(e),
        },
        _ => Ok(None),
    }
}

/// How many times an expression has to be split up, at most.
pub open spec fn weight(e: Sp<ExprV>) -> nat
    decreases e,
{
    match e.value {
        ExprV::LitInt { .. } => 0,
        ExprV::LitFloat { .. } => 0,
        ExprV::Var(_) => 0,
        ExprV::Binop(a, _, b) => 1 + weight(*a) + weight(*b),
        _ => 1,
    }
}

/// Whether a variable occurs in an expression, with any type.
pub open spec fn uses_var(e: Sp<ExprV>, var: VarV) -> bool
    decreases e, 0nat,
{
    match e.value {
        ExprV::Ternary { cond, left, right } => uses_var(*cond, var) || uses_var(*left, var)
            || uses_var(*right, var),
        ExprV::Binop(a, _, b) => uses_var(*a, var) || uses_var(*b, var),
        ExprV::Call { args, .. } => any_uses_var(args, args.len(), var),
        ExprV::Unop(_, b) => uses_var(*b, var),
        ExprV::Var(v) => var.same_upto_ty(v.value),
        _ => false,
    }
}

/// Whether a variable occurs in one of the first `n` expressions.
pub open spec fn any_uses_var(es: Seq<Sp<ExprV>>, n: nat, var: VarV) -> bool
    decreases es, n,
{
    if n == 0 || n > es.len() {
        false
    } else {
        any_uses_var(es, (n - 1) as nat, var) || uses_var(es[n - 1], var)
    }
}

/// The variable that stands for a temporary.
pub open spec fn temp_var(span: Span, id: VarId) -> Sp<VarV> {
    Spanned { span, value: VarV::Local { ty_sigil: None, var_id: id } }
}

/// A variable as an expression.
pub open spec fn var_expr(var: Sp<VarV>) -> Sp<ExprV> {
    Spanned { span: var.span, value: ExprV::Var(var) }
}

/// Begin the life of a temporary.
pub open spec fn allocate(st: LowerSt, span: Span, ty: ScalarType) -> (
    LowerSt,
    Result<VarId, ErrorV>,
) {
    if st.vars.len() >= usize::MAX {
        (st, Err(Diagnostic::ScriptTooLarge))
    } else {
        let id = VarId(st.vars.len() as usize);
        (
            LowerSt {
                out: st.out.push(LowV::RegAlloc { var: id, cause: span }),
                vars: st.vars.push(VarInfoV { name: None, ty: Some(ty), parent: ScopeId(0) }),
            },
            Ok(id),
        )
    }
}

/// End the life of a temporary, if all went well until then.
pub open spec fn release(after: (LowerSt, Option<ErrorV>), id: VarId) -> (
    LowerSt,
    Option<ErrorV>,
) {
    if after.1 is Some {
        after
    } else {
        (after.0.push(LowV::RegFree { var: id }), None)
    }
}

/// `a = <B>;` or `a *= <B>;`
pub open spec fn assign_op(
    cx: LowerCx,
    st: LowerSt,
    span: Span,
    time: i32,
    var: Sp<VarV>,
    op: Sp<AssignOpKind>,
    rhs: Sp<ExprV>,
) -> (LowerSt, Option<ErrorV>)
    decreases
            weight(rhs),
            if op.value is Assign {
                0nat
            } else {
                2nat
            },
{
    if op.value is Assign && rhs.value is Binop {
        // a = <expr> + <expr>
        direct_binop(
            cx,
            st,
            span,
            time,
            var,
            op.span,
            rhs.span,
            *rhs.value->Binop_0,
            rhs.value->Binop_1,
            *rhs.value->Binop_2,
        )
    } else {
        match lower_var(cx.regs, st.vars, var) {
            Err(e) => (st, Some(e)),
            Ok((arg_var, ty_var)) => match simple_arg(cx.regs, st.vars, rhs) {
                Err(e) => (st, Some(e)),
                // a += b
                Ok(Some((arg_rhs, ty_rhs))) => match ty_var.check_same_spec(
                    ty_rhs,
                    op.span,
                    (var.span, rhs.span),
                ) {
                    Err(e) => (st, Some(e)),
                    Ok(ty) => emit(
                        cx,
                        st,
                        time,
                        IntrinsicInstrKind::AssignOp(op.value, ty),
                        span,
                        seq![arg_var, arg_rhs],
                    ),
                },
                // split out to: `tmp = <expr>;  a += tmp;`
                Ok(None) => if op.value is Assign {
                    (st, Some(Diagnostic::Unsupported { span: rhs.span }))
                } else {
                    let (st1, tmp) = define_temp(cx, st, time, ty_var, rhs);
                    match tmp {
                        Err(e) => (st1, Some(e)),
                        Ok(id) => release(
                            assign_op(
                                cx,
                                st1,
                                span,
                                time,
                                var,
                                op,
                                var_expr(temp_var(rhs.span, id)),
                            ),
                            id,
                        ),
                    }
                },
            },
        }
    }
}

/// A new temporary that holds the value of an expression.
pub open spec fn define_temp(
    cx: LowerCx,
    st: LowerSt,
    time: i32,
    ty: ScalarType,
    e: Sp<ExprV>,
) -> (LowerSt, Result<VarId, ErrorV>)
    decreases weight(e), 1nat,
{
    let (st1, tmp) = allocate(st, e.span, ty);
    match tmp {
        Err(err) => (st1, Err(err)),
        Ok(id) => {
            let (st2, err) = assign_op(
                cx,
                st1,
                e.span,
                time,
                temp_var(e.span, id),
                Spanned { span: e.span, value: AssignOpKind::Assign },
                e,
            );
            match err {
                Some(err) => (st2, Err(err)),
                None => (st2, Ok(id)),
            }
        },
    }
}

/// `a = <B> * <C>;`
///
/// If `<B>` and `<C>` are both literals or variables, this is one instruction.  Otherwise the
/// first of them that is not is assigned to a variable first: to `a` itself if the other one does
/// not use `a`, and to a temporary if it does.
pub open spec fn direct_binop(
    cx: LowerCx,
    st: LowerSt,
    span: Span,
    time: i32,
    var: Sp<VarV>,
    eq_span: Span,
    rhs_span: Span,
    a: Sp<ExprV>,
    op: Sp<BinopKind>,
    b: Sp<ExprV>,
) -> (LowerSt, Option<ErrorV>)
    decreases weight(a) + weight(b), 3nat,
{
    match (lower_var(cx.regs, st.vars, var), simple_arg(cx.regs, st.vars, a), simple_arg(cx.regs, st.vars, b)) {
        (Err(e), _, _) => (st, Some(e)),
        (Ok(_), Err(e), _) => (st, Some(e)),
        (Ok(_), Ok(_), Err(e)) => (st, Some(e)),
        (Ok((arg_var, ty_var)), Ok(Some((arg_a, ty_a))), Ok(Some((arg_b, ty_b)))) => {
            match op_type(op, ty_a, ty_b, (a.span, b.span)) {
                Err(e) => (st, Some(e)),
                Ok(ty_rhs) => match ty_var.check_same_spec(ty_rhs, eq_span, (var.span, rhs_span)) {
                    Err(e) => (st, Some(e)),
                    Ok(ty) => emit(
                        cx,
                        st,
                        time,
                        IntrinsicInstrKind::Binop(op.value, ty),
                        span,
                        seq![arg_var, arg_a, arg_b],
                    ),
                },
            }
        },
        (Ok(_), Ok(simple_a), Ok(_)) => {
            let split_first = simple_a is None;
            let part = if split_first {
                a
            } else {
                b
            };
            let other = if split_first {
                b
            } else {
                a
            };
            let assign = Spanned { span: part.span, value: AssignOpKind::Assign };
            if uses_var(other, var.value) {
                match shallow_type(cx.regs, st.vars, part) {
                    Err(e) => (st, Some(e)),
                    Ok(ty) => {
                        let (st1, tmp) = allocate(st, part.span, ty);
                        match tmp {
                            Err(e) => (st1, Some(e)),
                            Ok(id) => {
                                let t = temp_var(part.span, id);
                                let (st2, err) = assign_op(cx, st1, part.span, time, t, assign, part);
                                if err is Some {
                                    (st2, err)
                                } else if split_first {
                                    release(
                                        direct_binop(
                                            cx,
                                            st2,
                                            span,
                                            time,
                                            var,
                                            eq_span,
                                            rhs_span,
                                            var_expr(t),
                                            op,
                                            b,
                                        ),
                                        id,
                                    )
                                } else {
                                    release(
                                        direct_binop(
                                            cx,
                                            st2,
                                            span,
                                            time,
                                            var,
                                            eq_span,
                                            rhs_span,
                                            a,
                                            op,
                                            var_expr(t),
                                        ),
                                        id,
                                    )
                                }
                            },
                        }
                    },
                }
            } else {
                let (st2, err) = assign_op(cx, st, part.span, time, var, assign, part);
                if err is Some {
                    (st2, err)
                } else if split_first {
                    direct_binop(
                        cx,
                        st2,
                        span,
                        time,
                        var,
                        eq_span,
                        rhs_span,
                        var_expr(var),
                        op,
                        b,
                    )
                } else {
                    direct_binop(
                        cx,
                        st2,
                        span,
                        time,
                        var,
                        eq_span,
                        rhs_span,
                        a,
                        op,
                        var_expr(var),
                    )
                }
            }
        },
    }
}

/// The type of an operation: the one that both operands have.
pub open spec fn op_type(
    op: Sp<BinopKind>,
    a: ScalarType,
    b: ScalarType,
    spans: (Span, Span),
) -> Result<ScalarType, ErrorV> {
    a.check_same_spec(b, op.span, spans)
}

/// A jump as two arguments: where to, and the time there.
pub open spec fn goto_args(goto: GotoV) -> (InstrArgV, InstrArgV) {
    (
        InstrArgV::Label(goto.destination),
        match goto.time {
            Some(time) => InstrArgV::Raw(RawArg { bits: time as u32, is_var: false }),
            None => InstrArgV::TimeOf(goto.destination),
        },
    )
}

/// `if (<A> != <B>) goto label @ time;`
pub open spec fn cond_jump_binop(
    cx: LowerCx,
    st: LowerSt,
    time: i32,
    a: Sp<ExprV>,
    op: Sp<BinopKind>,
    b: Sp<ExprV>,
    goto: GotoV,
) -> (LowerSt, Option<ErrorV>)
    decreases weight(a) + weight(b),
{
    match (simple_arg(cx.regs, st.vars, a), simple_arg(cx.regs, st.vars, b)) {
        (Err(e), _) => (st, Some(e)),
        (Ok(_), Err(e)) => (st, Some(e)),
        // split out to: `tmp = <A>;  if (tmp != <B>) ...`;
        (Ok(None), Ok(_)) => match shallow_type(cx.regs, st.vars, a) {
            Err(e) => (st, Some(e)),
            Ok(ty) => {
                let (st1, tmp) = define_temp(cx, st, time, ty, a);
                match tmp {
                    Err(e) => (st1, Some(e)),
                    Ok(id) => release(
                        cond_jump_binop(
                            cx,
                            st1,
                            time,
                            var_expr(temp_var(a.span, id)),
                            op,
                            b,
                            goto,
                        ),
                        id,
                    ),
                }
            },
        },
        // split out to: `tmp = <B>;  if (a != tmp) ...`;
        (Ok(Some((_, ty))), Ok(None)) => {
            let (st1, tmp) = define_temp(cx, st, time, ty, b);
            match tmp {
                Err(e) => (st1, Some(e)),
                Ok(id) => release(
                    cond_jump_binop(
                        cx,
                        st1,
                        time,
                        a,
                        op,
                        var_expr(temp_var(b.span, id)),
                        goto,
                    ),
                    id,
                ),
            }
        },
        // `if (a != b) ...`
        (Ok(Some((arg_a, ty_a))), Ok(Some((arg_b, ty_b)))) => match op_type(
            op,
            ty_a,
            ty_b,
            (a.span, b.span),
        ) {
            Err(e) => (st, Some(e)),
            Ok(ty) => emit(
                cx,
                st,
                time,
                IntrinsicInstrKind::CondJmp(op.value, ty),
                op.span,
                seq![arg_a, arg_b, goto_args(goto).0, goto_args(goto).1],
            ),
        },
    }
}

/// `if (<cond>) goto label @ time;`
pub open spec fn cond_jump(
    cx: LowerCx,
    st: LowerSt,
    span: Span,
    time: i32,
    keyword: Sp<CondKeyword>,
    cond: Sp<CondV>,
    goto: GotoV,
) -> (LowerSt, Option<ErrorV>) {
    match cond.value {
        CondV::Decrement(var) => match lower_var(cx.regs, st.vars, var) {
            Err(e) => (st, Some(e)),
            Ok((arg_var, ty)) => if ty != ScalarType::Int {
                (
                    st,
                    Some(
                        Diagnostic::CountNotInt {
                            cond: cond.span,
                            keyword: keyword.span,
                            actual: ty,
                        },
                    ),
                )
            } else {
                emit(
                    cx,
                    st,
                    time,
                    IntrinsicInstrKind::CountJmp,
                    span,
                    seq![arg_var, goto_args(goto).0, goto_args(goto).1],
                )
            },
        },
        CondV::Expr(e) => match e.value {
            ExprV::Binop(a, op, b) => cond_jump_binop(cx, st, time, *a, op, *b, goto),
            _ => (st, Some(Diagnostic::Unsupported { span: e.span })),
        },
    }
}

/// What lowering has made of the arguments of an instruction.
#[verifier::ext_equal]
pub ghost struct ArgsSt {
    pub st: LowerSt,
    pub args: Seq<InstrArgV>,
    pub temps: Seq<VarId>,
    pub errors: Seq<ErrorV>,
}

impl ArgsSt {
    pub open spec fn fail(self, st: LowerSt, e: ErrorV) -> ArgsSt {
        ArgsSt { st, errors: self.errors.push(e), ..self }
    }

    /// Add an argument, unless it does not have the type that it must have.
    pub open spec fn accept(
        self,
        arg: InstrArgV,
        ty: ScalarType,
        index: int,
        name: Sp<Seq<char>>,
        span: Span,
        expected: ScalarType,
    ) -> ArgsSt {
        if ty != expected {
            self.fail(
                self.st,
                Diagnostic::WrongArgType { index: (index + 1) as usize, name, arg: span, expected },
            )
        } else {
            ArgsSt { args: self.args.push(arg), ..self }
        }
    }
}

/// The first `n` arguments of an instruction.  A complex one is put into a temporary.
pub open spec fn lower_args(
    cx: LowerCx,
    st: LowerSt,
    time: i32,
    name: Sp<Seq<char>>,
    encodings: Seq<ArgEncoding>,
    args: Seq<Sp<ExprV>>,
    n: nat,
) -> ArgsSt
    decreases n,
{
    if n == 0 {
        ArgsSt { st, args: seq![], temps: seq![], errors: seq![] }
    } else {
        let before = lower_args(cx, st, time, name, encodings, args, (n - 1) as nat);
        let e = args[n - 1];
        let expected = encodings[n - 1].expected_type_spec();
        match simple_arg(cx.regs, before.st.vars, e) {
            Err(err) => before.fail(before.st, err),
            Ok(Some((arg, ty))) => before.accept(arg, ty, n - 1, name, e.span, expected),
            Ok(None) => match shallow_type(cx.regs, before.st.vars, e) {
                Err(err) => before.fail(before.st, err),
                Ok(ty) => {
                    let (st1, tmp) = define_temp(cx, before.st, time, ty, e);
                    match tmp {
                        Err(err) => before.fail(st1, err),
                        Ok(id) => ArgsSt {
                            st: st1,
                            temps: before.temps.push(id),
                            ..before
                        }.accept(InstrArgV::Local(id), ty, n - 1, name, e.span, expected),
                    }
                },
            },
        }
    }
}

/// The ends of the lives of temporaries, the last one first.
pub open spec fn frees(temps: Seq<VarId>) -> Seq<LowV> {
    temps.reverse().map_values(|id: VarId| LowV::RegFree { var: id })
}

/// `func(<ARG1>, <ARG2>, <...>);`
pub open spec fn func_stmt(
    cx: LowerCx,
    st: LowerSt,
    time: i32,
    func: Sp<Seq<char>>,
    args: Seq<Sp<ExprV>>,
) -> (LowerSt, Result<u16, Seq<ErrorV>>) {
    match as_ins_spec(cx.regs.resolve_func_aliases_spec(func.value)) {
        None => (st, Err(seq![Diagnostic::UnknownInstruction { name: func }])),
        Some(opcode) => instruction(cx, st, time, opcode, func, args),
    }
}

/// `func(<ARG1>, <ARG2>, <...>);` where `func` is an instruction alias.
pub open spec fn instruction(
    cx: LowerCx,
    st: LowerSt,
    time: i32,
    opcode: u16,
    func: Sp<Seq<char>>,
    args: Seq<Sp<ExprV>>,
) -> (LowerSt, Result<u16, Seq<ErrorV>>) {
    match cx.regs.ins_signature_spec(opcode) {
        None => (st, Err(seq![Diagnostic::SignatureUnknown { name: func }])),
        Some(encodings) => if !(unpadded_len(encodings) <= args.len() <= encodings.len()) {
            (
                st,
                Err(
                    seq![
                        Diagnostic::WrongArgCount {
                            name: func,
                            expected: encodings.len() as usize,
                            actual: args.len() as usize,
                        },
                    ],
                ),
            )
        } else {
            let low = lower_args(cx, st, time, func, encodings, args, args.len());
            if low.errors.len() > 0 {
                (low.st, Err(low.errors))
            } else {
                (
                    LowerSt {
                        out: low.st.out.push(LowV::Instr(InstrV { time, opcode, args: low.args }))
                            + frees(low.temps),
                        vars: low.st.vars,
                    },
                    Ok(opcode),
                )
            }
        },
    }
}

/// The first `n` labels of a statement.
pub open spec fn lower_labels(st: LowerSt, labels: Seq<Sp<LabelV>>, n: nat) -> (
    LowerSt,
    Option<ErrorV>,
)
    decreases n,
{
    if n == 0 {
        (st, None)
    } else {
        let (st1, err) = lower_labels(st, labels, (n - 1) as nat);
        if err is Some {
            (st1, err)
        } else {
            match labels[n - 1].value {
                LabelV::Label(ident) => (st1.push(LowV::Label(ident)), None),
                LabelV::Difficulty { .. } => (
                    st1,
                    Some(Diagnostic::Unsupported { span: labels[n - 1].span }),
                ),
            }
        }
    }
}

/// The errors of one that may have failed.
pub open spec fn errors_of(e: Option<ErrorV>) -> Seq<ErrorV> {
    match e {
        Some(e) => seq![e],
        None => seq![],
    }
}

/// What lowering has made of a script so far.
#[verifier::ext_equal]
pub ghost struct SubSt {
    pub st: LowerSt,
    /// The instruction that ends the script, where the format has such instructions.
    pub end: Option<Span>,
    pub errors: Seq<ErrorV>,
}

impl SubSt {
    pub open spec fn then_one(self, after: (LowerSt, Option<ErrorV>)) -> SubSt {
        SubSt { st: after.0, errors: self.errors + errors_of(after.1), ..self }
    }
}

/// A statement without its labels.
pub open spec fn lower_body<F: InstrFormat>(
    cx: LowerCx,
    format: F,
    sub: SubSt,
    time: i32,
    body: Sp<BodyV>,
) -> SubSt {
    let st = sub.st;
    match body.value {
        BodyV::Jump(goto) => if goto.time is Some && !format.jump_has_time_arg_spec() {
            sub.then_one((st, Some(Diagnostic::GotoTimeUnsupported { span: body.span })))
        } else {
            sub.then_one(
                emit(
                    cx,
                    st,
                    time,
                    IntrinsicInstrKind::Jmp,
                    body.span,
                    seq![goto_args(goto).0, goto_args(goto).1],
                ),
            )
        },
        BodyV::Assignment { var, op, value } => sub.then_one(
            assign_op(cx, st, body.span, time, var, op, value),
        ),
        BodyV::InterruptLabel(n) => sub.then_one(
            emit(
                cx,
                st,
                time,
                IntrinsicInstrKind::InterruptLabel,
                body.span,
                seq![InstrArgV::Raw(RawArg { bits: n.value as u32, is_var: false })],
            ),
        ),
        BodyV::CondJump { keyword, cond, jump } => sub.then_one(
            cond_jump(cx, st, body.span, time, keyword, cond, jump),
        ),
        BodyV::Expr(e) => match e.value {
            ExprV::Call { func, args } => {
                let (st1, r) = func_stmt(cx, st, time, func, args);
                match r {
                    Err(errors) => SubSt { st: st1, errors: sub.errors + errors, ..sub },
                    Ok(opcode) => SubSt {
                        st: st1,
                        end: if format.terminating_spec(opcode) {
                            Some(func.span)
                        } else {
                            sub.end
                        },
                        ..sub
                    },
                }
            },
            _ => sub.then_one((st, Some(Diagnostic::Unsupported { span: body.span }))),
        },
        BodyV::Label(ident) => sub.then_one((st.push(LowV::Label(ident)), None)),
        BodyV::NoInstruction => sub,
        _ => sub.then_one((st, Some(Diagnostic::Unsupported { span: body.span }))),
    }
}

/// A statement.
pub open spec fn lower_stmt<F: InstrFormat>(
    cx: LowerCx,
    format: F,
    sub: SubSt,
    stmt: StmtV,
) -> SubSt {
    if sub.end is Some && !(stmt.body.value is NoInstruction) {
        sub.then_one(
            (
                sub.st,
                Some(
                    Diagnostic::StatementAfterEnd { stmt: stmt.body.span, end: sub.end->0 },
                ),
            ),
        )
    } else {
        let (st1, err) = lower_labels(sub.st, stmt.labels, stmt.labels.len());
        if err is Some {
            sub.then_one((st1, err))
        } else {
            lower_body(cx, format, SubSt { st: st1, ..sub }, stmt.time, stmt.body)
        }
    }
}

/// The first `n` statements of a script.  All errors are gathered.
pub open spec fn lower_sub_ast<F: InstrFormat>(
    cx: LowerCx,
    format: F,
    st: LowerSt,
    code: Seq<Sp<StmtV>>,
    n: nat,
) -> SubSt
    decreases n,
{
    if n == 0 {
        SubSt { st, end: None, errors: seq![] }
    } else {
        lower_stmt(
            cx,
            format,
            lower_sub_ast(cx, format, st, code, (n - 1) as nat),
            code[n - 1].value,
        )
    }
}

// =============================================================================

/// Helper responsible for converting an AST into [`LowLevelStmt`]s.
pub struct Lowerer<'a, F> {
    pub out: Vec<LowLevelStmt>,
    pub intrinsic_instrs: IntrinsicInstrs,
    pub instr_format: &'a F,
}

/// What an expression is as an argument of an instruction.
pub enum ExprClass {
    /// A literal or variable, as an argument with its type.
    Simple(InstrArg, ScalarType),
    /// Anything that takes instructions of its own.
    Complex,
}

impl ExprClass {
    pub open spec fn class_view(self) -> Option<(InstrArgV, ScalarType)> {
        match self {
            ExprClass::Simple(arg, ty) => Some((arg@, ty)),
            ExprClass::Complex => None,
        }
    }
}

/// A result with its value and its error taken by view.
pub open spec fn class_result(r: Result<ExprClass, Error>) -> Result<
    Option<(InstrArgV, ScalarType)>,
    ErrorV,
> {
    match r {
        Ok(c) => Ok(c.class_view()),
        Err(e) => Err(e@),
    }
}

pub open spec fn arg_result(r: Result<(InstrArg, ScalarType), Error>) -> Result<
    (InstrArgV, ScalarType),
    ErrorV,
> {
    match r {
        Ok((arg, ty)) => Ok((arg@, ty)),
        Err(e) => Err(e@),
    }
}

/// The error of a result, if it is one.
pub open spec fn err_view(r: Result<(), Error>) -> Option<ErrorV> {
    match r {
        Ok(_) => None,
        Err(e) => Some(e@),
    }
}

fn lower_var_to_arg(var: &Sp<Var>, ty_ctx: &TypeSystem) -> (r: Result<
    (InstrArg, ScalarType),
    Error,
>)
    ensures
        arg_result(r) == lower_var(ty_ctx.regs_and_instrs, ty_ctx.variables@, var_view(*var)),
{
    let ty = match ty_ctx.var_type(&var.value) {
        Some(ty) => ty,
        None => return Err(Diagnostic::NeedsTypePrefix { span: var.span }),
    };
    match ty_ctx.regs_and_instrs.reg_id(&var.value) {
        Some(reg) => Ok((InstrArg::Raw(RawArg::from_reg(reg, ty)), ty)),
        None => match &var.value {
            Var::Local { var_id, .. } => Ok((InstrArg::Local(*var_id), ty)),
            _ => Err(Diagnostic::UnrecognizedVariable { span: var.span }),
        },
    }
}

fn try_lower_simple_arg(arg: &Sp<Expr>, ty_ctx: &TypeSystem) -> (r: Result<ExprClass, Error>)
    ensures
        class_result(r) == simple_arg(ty_ctx.regs_and_instrs, ty_ctx.variables@, expr_view(*arg)),
{
    match &arg.value {
        Expr::LitInt { value, .. } => Ok(
            ExprClass::Simple(InstrArg::Raw(RawArg::from(*value)), ScalarType::Int),
        ),
        Expr::LitFloat { value } => Ok(
            ExprClass::Simple(InstrArg::Raw(RawArg::from(*value)), ScalarType::Float),
        ),
        Expr::Var(var) => match lower_var_to_arg(var, ty_ctx) {
            Ok((out, ty)) => Ok(ExprClass::Simple(out, ty)),
            Err(e) => Err(e),
        },
        _ => Ok(ExprClass::Complex),
    }
}

fn lower_goto_args(goto: &StmtGoto) -> (r: (InstrArg, InstrArg))
    ensures
        (r.0@, r.1@) == goto_args(goto_view(*goto)),
{
    let label_arg = InstrArg::Label(goto.destination.clone());
    let time_arg = match goto.time {
        Some(time) => InstrArg::Raw(RawArg::from(time)),
        None => InstrArg::TimeOf(goto.destination.clone()),
    };
    (label_arg, time_arg)
}

/// Tell whether a variable occurs in an expression, with any type.
fn expr_uses_var(e: &Sp<Expr>, var: &Var) -> (r: bool)
    ensures
        r == uses_var(expr_view(*e), var@),
    decreases *e,
{
    match &e.value {
        Expr::Ternary { cond, left, right } => expr_uses_var(&**cond, var) || expr_uses_var(
            &**left,
            var,
        ) || expr_uses_var(&**right, var),
        Expr::Binop(a, _, b) => expr_uses_var(&**a, var) || expr_uses_var(&**b, var),
        Expr::Call { args, .. } => {
            let ghost views = exprs_view(args@, args@.len());
            proof {
                lemma_exprs_view(args@, args@.len());
            }
            let mut found: bool = false;
            let mut i: usize = 0;
            while i < args.len()
                invariant
                    i <= args@.len(),
                    e.value matches Expr::Call { args: a, .. } && a == *args,
                    views.len() == args@.len(),
                    forall|j: int| 0 <= j < args@.len() ==> #[trigger] views[j] == expr_view(args@[j]),
                    found == any_uses_var(views, i as nat, var@),
                decreases args@.len() - i,
            {
                let here = expr_uses_var(&args[i], var);
                found = found || here;
                i = i + 1;
            }
            found
        },
        Expr::Unop(_, b) => expr_uses_var(&**b, var),
        Expr::Var(v) => var.eq_upto_ty(&v.value),
        _ => false,
    }
}

impl<'a, F: InstrFormat> Lowerer<'a, F> {
    /// The code so far, with the variables that it may speak of.
    pub open spec fn st(self, ty_ctx: TypeSystem) -> LowerSt {
        LowerSt { out: low_view(self.out@), vars: ty_ctx.variables@ }
    }

    pub open spec fn cx(self, ty_ctx: TypeSystem) -> LowerCx {
        LowerCx { regs: ty_ctx.regs_and_instrs, pairs: self.intrinsic_instrs@ }
    }

    /// Whether only the code and the variables differ.
    pub open spec fn same_setting(self, ty_ctx: TypeSystem, old: Self, old_ctx: TypeSystem) -> bool {
        &&& self.intrinsic_instrs == old.intrinsic_instrs
        &&& self.instr_format == old.instr_format
        &&& ty_ctx.regs_and_instrs == old_ctx.regs_and_instrs
        &&& ty_ctx.gensym_ctx == old_ctx.gensym_ctx
    }

    fn push(&mut self, stmt: LowLevelStmt)
        ensures
            final(self).intrinsic_instrs == old(self).intrinsic_instrs,
            final(self).instr_format == old(self).instr_format,
            low_view(final(self).out@) == low_view(old(self).out@).push(stmt@),
    {
        self.out.push(stmt);
        assert(low_view(self.out@) =~= low_view(old(self).out@).push(stmt@));
    }

    /// Adds the instruction for an operation.
    fn emit(
        &mut self,
        ty_ctx: &TypeSystem,
        time: i32,
        kind: IntrinsicInstrKind,
        span: Span,
        args: Vec<InstrArg>,
    ) -> (r: Result<(), Error>)
        ensures
            final(self).same_setting(*ty_ctx, *old(self), *ty_ctx),
            (final(self).st(*ty_ctx), err_view(r)) == emit(
                old(self).cx(*ty_ctx),
                old(self).st(*ty_ctx),
                time,
                kind,
                span,
                args_view(args@),
            ),
    {
        match self.intrinsic_instrs.get_opcode(kind, span) {
            Ok(opcode) => {
                self.push(LowLevelStmt::Instr(Instr { time, opcode, args }));
                Ok(())
            },
            Err(e) => Err(e),
        }
    }

    /// Lowers `a = <B>;`  or  `a *= <B>;`
    fn assign_op(
        &mut self,
        ty_ctx: &mut TypeSystem,
        span: Span,
        time: i32,
        var: &Sp<Var>,
        op: &Sp<AssignOpKind>,
        rhs: &Sp<Expr>,
    ) -> (r: Result<(), Error>)
        ensures
            final(self).same_setting(*final(ty_ctx), *old(self), *old(ty_ctx)),
            (final(self).st(*final(ty_ctx)), err_view(r)) == assign_op(
                old(self).cx(*old(ty_ctx)),
                old(self).st(*old(ty_ctx)),
                span,
                time,
                var_view(*var),
                *op,
                expr_view(*rhs),
            ),
        decreases
                weight(expr_view(*rhs)),
                if op.value is Assign {
                    0nat
                } else {
                    2nat
                },
    {
        if let (AssignOpKind::Assign, Expr::Binop(a, binop, b)) = (op.value, &rhs.value) {
            return self.assign_direct_binop(
                ty_ctx,
                span,
                time,
                var,
                op.span,
                rhs.span,
                &**a,
                binop,
                &**b,
            );
        }
        let (arg_var, ty_var) = match lower_var_to_arg(var, ty_ctx) {
            Ok(x) => x,
            Err(e) => return Err(e),
        };
        match try_lower_simple_arg(rhs, ty_ctx) {
            Err(e) => Err(e),
            Ok(ExprClass::Simple(arg_rhs, ty_rhs)) => {
                let ty = match ty_var.check_same(ty_rhs, op.span, (var.span, rhs.span)) {
                    Ok(ty) => ty,
                    Err(e) => return Err(e),
                };
                let args = vec![arg_var, arg_rhs];
                assert(args_view(args@) =~= seq![arg_var@, arg_rhs@]);
                self.emit(ty_ctx, time, IntrinsicInstrKind::AssignOp(op.value, ty), span, args)
            },
            // split out to: `tmp = <expr>;  a += tmp;`
            Ok(ExprClass::Complex) => {
                if let AssignOpKind::Assign = op.value {
                    return Err(Diagnostic::Unsupported { span: rhs.span });
                }
                let (id, tmp) = match self.define_temporary(ty_ctx, time, ty_var, rhs) {
                    Ok(x) => x,
                    Err(e) => return Err(e),
                };
                match self.assign_op(ty_ctx, span, time, var, op, &tmp) {
                    Ok(_) => {},
                    Err(e) => return Err(e),
                }
                self.undefine_temporary(id);
                Ok(())
            },
        }
    }

    /// Lowers `a = <B> * <C>;`
    fn assign_direct_binop(
        &mut self,
        ty_ctx: &mut TypeSystem,
        span: Span,
        time: i32,
        var: &Sp<Var>,
        eq_span: Span,
        rhs_span: Span,
        a: &Sp<Expr>,
        binop: &Sp<BinopKind>,
        b: &Sp<Expr>,
    ) -> (r: Result<(), Error>)
        ensures
            final(self).same_setting(*final(ty_ctx), *old(self), *old(ty_ctx)),
            (final(self).st(*final(ty_ctx)), err_view(r)) == direct_binop(
                old(self).cx(*old(ty_ctx)),
                old(self).st(*old(ty_ctx)),
                span,
                time,
                var_view(*var),
                eq_span,
                rhs_span,
                expr_view(*a),
                *binop,
                expr_view(*b),
            ),
        decreases weight(expr_view(*a)) + weight(expr_view(*b)), 3nat,
    {
        // So right here, we have something like `a = <B> * <C>`. If <B> and <C> are both simple arguments (literals or
        // variables), we can emit this as one instruction. Otherwise, we need to break it up.  In the general case this
        // would mean producing
        //
        //     int tmp;
        //     tmp = <B>;      // recursive call
        //     a = tmp * <C>;  // recursive call
        //
        // but sometimes it's possible to do this without a temporary by reusing the destination variable `a`, such as:
        //
        //     a = <B>;        // recursive call
        //     a = a * <C>;    // recursive call
        let (arg_var, ty_var) = match lower_var_to_arg(var, ty_ctx) {
            Ok(x) => x,
            Err(e) => return Err(e),
        };
        let class_a = match try_lower_simple_arg(a, ty_ctx) {
            Ok(x) => x,
            Err(e) => return Err(e),
        };
        let class_b = match try_lower_simple_arg(b, ty_ctx) {
            Ok(x) => x,
            Err(e) => return Err(e),
        };
        // Preserve execution order by always splitting out the first large subexpression.
        let split_first: bool = match (class_a, class_b) {
            // if they're both simple, that's our base case, and we emit a single instruction
            (ExprClass::Simple(arg_a, ty_a), ExprClass::Simple(arg_b, ty_b)) => {
                let ty_rhs = match ty_a.check_same(ty_b, binop.span, (a.span, b.span)) {
                    Ok(ty) => ty,
                    Err(e) => return Err(e),
                };
                let ty = match ty_var.check_same(ty_rhs, eq_span, (var.span, rhs_span)) {
                    Ok(ty) => ty,
                    Err(e) => return Err(e),
                };
                let args = vec![arg_var, arg_a, arg_b];
                assert(args_view(args@) =~= seq![arg_var@, arg_a@, arg_b@]);
                return self.emit(
                    ty_ctx,
                    time,
                    IntrinsicInstrKind::Binop(binop.value, ty),
                    span,
                    args,
                );
            },
            (ExprClass::Complex, _) => true,
            (ExprClass::Simple(..), ExprClass::Complex) => false,
        };
        let (part, other) = if split_first {
            (a, b)
        } else {
            (b, a)
        };
        let assign = Spanned { span: part.span, value: AssignOpKind::Assign };

        // If the other expression does not use our destination variable, we can reuse it.
        if expr_uses_var(other, &var.value) {
            // It's used, so we need a temporary.
            let ty = match ty_ctx.compute_type_shallow(part) {
                Ok(ty) => ty,
                Err(e) => return Err(e),
            };
            let (id, tmp_var, tmp_expr) = match self.allocate_temporary(ty_ctx, part.span, ty) {
                Ok(x) => x,
                Err(e) => return Err(e),
            };
            match self.assign_op(ty_ctx, part.span, time, &tmp_var, &assign, part) {
                Ok(_) => {},
                Err(e) => return Err(e),
            }
            let second = if split_first {
                self.assign_direct_binop(
                    ty_ctx,
                    span,
                    time,
                    var,
                    eq_span,
                    rhs_span,
                    &tmp_expr,
                    binop,
                    b,
                )
            } else {
                self.assign_direct_binop(
                    ty_ctx,
                    span,
                    time,
                    var,
                    eq_span,
                    rhs_span,
                    a,
                    binop,
                    &tmp_expr,
                )
            };
            match second {
                Ok(_) => {},
                Err(e) => return Err(e),
            }
            self.undefine_temporary(id);
            Ok(())
        } else {
            match self.assign_op(ty_ctx, part.span, time, var, &assign, part) {
                Ok(_) => {},
                Err(e) => return Err(e),
            }
            let var_as_expr = Spanned {
                span: var.span,
                value: Expr::Var(Spanned { span: var.span, value: var.value.clone() }),
            };
            if split_first {
                self.assign_direct_binop(
                    ty_ctx,
                    span,
                    time,
                    var,
                    eq_span,
                    rhs_span,
                    &var_as_expr,
                    binop,
                    b,
                )
            } else {
                self.assign_direct_binop(
                    ty_ctx,
                    span,
                    time,
                    var,
                    eq_span,
                    rhs_span,
                    a,
                    binop,
                    &var_as_expr,
                )
            }
        }
    }

    /// Declares a new register-allocated temporary and initializes it with an expression.
    ///
    /// When done emitting instructions that use the temporary, one should call [`Self::undefine_temporary`].
    fn define_temporary(
        &mut self,
        ty_ctx: &mut TypeSystem,
        time: i32,
        ty: ScalarType,
        expr: &Sp<Expr>,
    ) -> (r: Result<(VarId, Sp<Expr>), Error>)
        ensures
            final(self).same_setting(*final(ty_ctx), *old(self), *old(ty_ctx)),
            ({
                let (st, tmp) = define_temp(
                    old(self).cx(*old(ty_ctx)),
                    old(self).st(*old(ty_ctx)),
                    time,
                    ty,
                    expr_view(*expr),
                );
                &&& final(self).st(*final(ty_ctx)) == st
                &&& match r {
                    Ok((id, e)) => tmp == Ok::<VarId, ErrorV>(id) && expr_view(e) == var_expr(
                        temp_var(expr.span, id),
                    ),
                    Err(e) => tmp == Err::<VarId, ErrorV>(e@),
                }
            }),
        decreases weight(expr_view(*expr)), 1nat,
    {
        let (id, var, var_as_expr) = match self.allocate_temporary(ty_ctx, expr.span, ty) {
            Ok(x) => x,
            Err(e) => return Err(e),
        };
        let eq_sign = Spanned { span: expr.span, value: AssignOpKind::Assign };
        match self.assign_op(ty_ctx, expr.span, time, &var, &eq_sign, expr) {
            Ok(_) => Ok((id, var_as_expr)),
            Err(e) => Err(e),
        }
    }

    /// Emits an intrinsic that cleans up a register-allocated temporary.
    fn undefine_temporary(&mut self, id: VarId)
        ensures
            final(self).intrinsic_instrs == old(self).intrinsic_instrs,
            final(self).instr_format == old(self).instr_format,
            low_view(final(self).out@) == low_view(old(self).out@).push(LowV::RegFree { var: id }),
    {
        self.push(LowLevelStmt::RegFree { var: id });
    }

    /// Grabs a new unique [`VarId`] and constructs a [`Var`] as well as an [`Expr`] for using the
    /// variable in an expression.  Emits an intrinsic to allocate a register to it.
    ///
    /// Call [`Self::undefine_temporary`] afterwards to clean up.
    fn allocate_temporary(&mut self, ty_ctx: &mut TypeSystem, span: Span, ty: ScalarType) -> (r:
        Result<(VarId, Sp<Var>, Sp<Expr>), Error>)
        ensures
            final(self).same_setting(*final(ty_ctx), *old(self), *old(ty_ctx)),
            ({
                let (st, tmp) = allocate(old(self).st(*old(ty_ctx)), span, ty);
                &&& final(self).st(*final(ty_ctx)) == st
                &&& match r {
                    Ok((id, var, e)) => {
                        &&& tmp == Ok::<VarId, ErrorV>(id)
                        &&& var_view(var) == temp_var(span, id)
                        &&& expr_view(e) == var_expr(temp_var(span, id))
                    },
                    Err(e) => tmp == Err::<VarId, ErrorV>(e@),
                }
            }),
    {
        if ty_ctx.variables.vars.len() >= usize::MAX {
            return Err(Diagnostic::ScriptTooLarge);
        }
        let id = ty_ctx.variables.declare_temporary(Some(ty));
        let var = Spanned { span, value: Var::Local { ty_sigil: None, var_id: id } };
        let var_as_expr = Spanned {
            span,
            value: Expr::Var(Spanned { span, value: Var::Local { ty_sigil: None, var_id: id } }),
        };
        self.push(LowLevelStmt::RegAlloc { var: id, cause: span });
        Ok((id, var, var_as_expr))
    }

    /// Lowers `if (<cond>) goto label @ time;`
    fn cond_jump(
        &mut self,
        ty_ctx: &mut TypeSystem,
        stmt_span: Span,
        stmt_time: i32,
        keyword: &Sp<CondKeyword>,
        cond: &Sp<Cond>,
        goto: &StmtGoto,
    ) -> (r: Result<(), Error>)
        ensures
            final(self).same_setting(*final(ty_ctx), *old(self), *old(ty_ctx)),
            (final(self).st(*final(ty_ctx)), err_view(r)) == cond_jump(
                old(self).cx(*old(ty_ctx)),
                old(self).st(*old(ty_ctx)),
                stmt_span,
                stmt_time,
                *keyword,
                cond_view(*cond),
                goto_view(*goto),
            ),
    {
        match &cond.value {
            Cond::Decrement(var) => {
                let (arg_var, ty_var) = match lower_var_to_arg(var, ty_ctx) {
                    Ok(x) => x,
                    Err(e) => return Err(e),
                };
                if ty_var != ScalarType::Int {
                    return Err(
                        Diagnostic::CountNotInt {
                            cond: cond.span,
                            keyword: keyword.span,
                            actual: ty_var,
                        },
                    );
                }
                let (arg_label, arg_time) = lower_goto_args(goto);
                let args = vec![arg_var, arg_label, arg_time];
                assert(args_view(args@) =~= seq![arg_var@, arg_label@, arg_time@]);
                self.emit(ty_ctx, stmt_time, IntrinsicInstrKind::CountJmp, stmt_span, args)
            },
            Cond::Expr(expr) => match &expr.value {
                Expr::Binop(a, binop, b) => self.cond_jump_binop(
                    ty_ctx,
                    stmt_time,
                    &**a,
                    binop,
                    &**b,
                    goto,
                ),
                _ => Err(Diagnostic::Unsupported { span: expr.span }),
            },
        }
    }

    /// Lowers `if (<A> != <B>) goto label @ time;` and similar
    fn cond_jump_binop(
        &mut self,
        ty_ctx: &mut TypeSystem,
        stmt_time: i32,
        a: &Sp<Expr>,
        binop: &Sp<BinopKind>,
        b: &Sp<Expr>,
        goto: &StmtGoto,
    ) -> (r: Result<(), Error>)
        ensures
            final(self).same_setting(*final(ty_ctx), *old(self), *old(ty_ctx)),
            (final(self).st(*final(ty_ctx)), err_view(r)) == cond_jump_binop(
                old(self).cx(*old(ty_ctx)),
                old(self).st(*old(ty_ctx)),
                stmt_time,
                expr_view(*a),
                *binop,
                expr_view(*b),
                goto_view(*goto),
            ),
        decreases weight(expr_view(*a)) + weight(expr_view(*b)),
    {
        let class_a = match try_lower_simple_arg(a, ty_ctx) {
            Ok(x) => x,
            Err(e) => return Err(e),
        };
        let class_b = match try_lower_simple_arg(b, ty_ctx) {
            Ok(x) => x,
            Err(e) => return Err(e),
        };
        match (class_a, class_b) {
            // `if (<A> != <B>) ...`
            // split out to: `tmp = <A>;  if (tmp != <B>) ...`;
            (ExprClass::Complex, _) => {
                let ty_tmp = match ty_ctx.compute_type_shallow(a) {
                    Ok(ty) => ty,
                    Err(e) => return Err(e),
                };
                let (id, tmp) = match self.define_temporary(ty_ctx, stmt_time, ty_tmp, a) {
                    Ok(x) => x,
                    Err(e) => return Err(e),
                };
                match self.cond_jump_binop(ty_ctx, stmt_time, &tmp, binop, b, goto) {
                    Ok(_) => {},
                    Err(e) => return Err(e),
                }
                self.undefine_temporary(id);
                Ok(())
            },
            // `if (a != <B>) ...`
            // split out to: `tmp = <B>;  if (a != tmp) ...`;
            (ExprClass::Simple(_, ty_tmp), ExprClass::Complex) => {
                let (id, tmp) = match self.define_temporary(ty_ctx, stmt_time, ty_tmp, b) {
                    Ok(x) => x,
                    Err(e) => return Err(e),
                };
                match self.cond_jump_binop(ty_ctx, stmt_time, a, binop, &tmp, goto) {
                    Ok(_) => {},
                    Err(e) => return Err(e),
                }
                self.undefine_temporary(id);
                Ok(())
            },
            // `if (a != b) ...`
            (ExprClass::Simple(arg_a, ty_a), ExprClass::Simple(arg_b, ty_b)) => {
                let ty = match ty_a.check_same(ty_b, binop.span, (a.span, b.span)) {
                    Ok(ty) => ty,
                    Err(e) => return Err(e),
                };
                let (arg_label, arg_time) = lower_goto_args(goto);
                let args = vec![arg_a, arg_b, arg_label, arg_time];
                assert(args_view(args@) =~= seq![
                    arg_a@,
                    arg_b@,
                    arg_label@,
                    arg_time@,
                ]);
                self.emit(
                    ty_ctx,
                    stmt_time,
                    IntrinsicInstrKind::CondJmp(binop.value, ty),
                    binop.span,
                    args,
                )
            },
        }
    }

    /// Lowers `func(<ARG1>, <ARG2>, <...>);`
    fn func_stmt(
        &mut self,
        ty_ctx: &mut TypeSystem,
        time: i32,
        func: &Sp<Ident>,
        args: &Vec<Sp<Expr>>,
    ) -> (r: Result<u16, CompileError>)
        ensures
            final(self).same_setting(*final(ty_ctx), *old(self), *old(ty_ctx)),
            (final(self).st(*final(ty_ctx)), errors_result(r)) == func_stmt(
                old(self).cx(*old(ty_ctx)),
                old(self).st(*old(ty_ctx)),
                time,
                ident_view(*func),
                exprs_view(args@, args@.len()),
            ),
    {
        proof {
            lemma_exprs_view(args@, args@.len());
        }
        // all function statements currently refer to single instructions
        let opcode: u16 = match ty_ctx.regs_and_instrs.resolve_func_aliases(&func.value).as_ins() {
            Some(opcode) => opcode,
            None => return Err(
                CompileError::one(Diagnostic::UnknownInstruction { name: func.clone() }),
            ),
        };
        self.instruction(ty_ctx, time, opcode, func, args)
    }

    /// Lowers `func(<ARG1>, <ARG2>, <...>);` where `func` is an instruction alias.
    fn instruction(
        &mut self,
        ty_ctx: &mut TypeSystem,
        time: i32,
        opcode: u16,
        name: &Sp<Ident>,
        args: &Vec<Sp<Expr>>,
    ) -> (r: Result<u16, CompileError>)
        ensures
            final(self).same_setting(*final(ty_ctx), *old(self), *old(ty_ctx)),
            (final(self).st(*final(ty_ctx)), errors_result(r)) == instruction(
                old(self).cx(*old(ty_ctx)),
                old(self).st(*old(ty_ctx)),
                time,
                opcode,
                ident_view(*name),
                exprs_view(args@, args@.len()),
            ),
    {
        let ghost views = exprs_view(args@, args@.len());
        proof {
            lemma_exprs_view(args@, args@.len());
        }
        let (encodings, min_args) = match ty_ctx.regs_and_instrs.ins_signature(opcode) {
            Some(siggy) => (copy_encodings(siggy.arg_encodings()), siggy.min_args()),
            None => return Err(
                CompileError::one(Diagnostic::SignatureUnknown { name: name.clone() }),
            ),
        };
        if !(min_args <= args.len() && args.len() <= encodings.len()) {
            return Err(
                CompileError::one(
                    Diagnostic::WrongArgCount {
                        name: name.clone(),
                        expected: encodings.len(),
                        actual: args.len(),
                    },
                ),
            );
        }
        let ghost cx = self.cx(*ty_ctx);
        let ghost st = self.st(*ty_ctx);
        let mut low_level_args: Vec<InstrArg> = Vec::new();
        let mut temp_var_ids: Vec<VarId> = Vec::new();
        let mut errors = CompileError::new_empty();
        let mut i: usize = 0;
        assert(args_view(low_level_args@) =~= seq![]);
        while i < args.len()
            invariant
                i <= args@.len() <= encodings@.len(),
                views == exprs_view(args@, args@.len()),
                views.len() == args@.len(),
                forall|j: int| 0 <= j < args@.len() ==> #[trigger] views[j] == expr_view(args@[j]),
                self.same_setting(*ty_ctx, *old(self), *old(ty_ctx)),
                cx == self.cx(*ty_ctx),
                ({
                    let low = lower_args(
                        cx,
                        st,
                        time,
                        ident_view(*name),
                        encodings@,
                        views,
                        i as nat,
                    );
                    &&& low.st == self.st(*ty_ctx)
                    &&& low.args == args_view(low_level_args@)
                    &&& low.temps == temp_var_ids@
                    &&& low.errors == errors@
                }),
            decreases args@.len() - i,
        {
            let ghost av = args_view(low_level_args@);
            assert(views[i as int] == expr_view(args@[i as int]));
            let expected: ScalarType = encodings[i].expected_type();
            let lowered: Result<(InstrArg, ScalarType), Error> = match try_lower_simple_arg(
                &args[i],
                ty_ctx,
            ) {
                Err(e) => Err(e),
                Ok(ExprClass::Simple(arg, ty)) => Ok((arg, ty)),
                Ok(ExprClass::Complex) => match ty_ctx.compute_type_shallow(&args[i]) {
                    Err(e) => Err(e),
                    Ok(ty) => match self.define_temporary(ty_ctx, time, ty, &args[i]) {
                        Err(e) => Err(e),
                        Ok((id, _)) => {
                            // so we can free the register later
                            temp_var_ids.push(id);
                            Ok((InstrArg::Local(id), ty))
                        },
                    },
                },
            };
            match lowered {
                Err(e) => {
                    errors.push(e);
                },
                Ok((arg, ty)) => {
                    if ty != expected {
                        errors.push(
                            Diagnostic::WrongArgType {
                                index: i + 1,
                                name: name.clone(),
                                arg: args[i].span,
                                expected,
                            },
                        );
                    } else {
                        let ghost a = arg@;
                        low_level_args.push(arg);
                        assert(args_view(low_level_args@) =~= av.push(a));
                    }
                },
            }
            i = i + 1;
        }
        if !errors.is_empty() {
            return Err(errors);
        }
        self.push(LowLevelStmt::Instr(Instr { time, opcode, args: low_level_args }));
        let ghost out = low_view(self.out@);
        let ghost rev = frees(temp_var_ids@);
        let mut n: usize = temp_var_ids.len();
        assert(out + rev.take(0) =~= out);
        while n > 0
            invariant
                n <= temp_var_ids@.len(),
                rev == frees(temp_var_ids@),
                self.same_setting(*ty_ctx, *old(self), *old(ty_ctx)),
                low_view(self.out@) == out + rev.take(temp_var_ids@.len() - n),
            decreases n,
        {
            let ghost k = temp_var_ids@.len() - n;
            self.undefine_temporary(temp_var_ids[n - 1]);
            assert(rev[k] == LowV::RegFree { var: temp_var_ids@[n - 1] });
            assert(rev.take(k + 1) =~= rev.take(k).push(rev[k]));
            n = n - 1;
            assert(low_view(self.out@) =~= out + rev.take(temp_var_ids@.len() - n));
        }
        assert(rev.take(temp_var_ids@.len() as int) =~= rev);
        Ok(opcode)
    }

    /// Lowers the labels of a statement.
    fn labels(&mut self, ty_ctx: &TypeSystem, labels: &Vec<Sp<StmtLabel>>) -> (r: Result<
        (),
        Error,
    >)
        ensures
            final(self).same_setting(*ty_ctx, *old(self), *ty_ctx),
            (final(self).st(*ty_ctx), err_view(r)) == lower_labels(
                old(self).st(*ty_ctx),
                labels@.map_values(|l: Sp<StmtLabel>| label_view(l)),
                labels@.len(),
            ),
    {
        let ghost views = labels@.map_values(|l: Sp<StmtLabel>| label_view(l));
        let mut i: usize = 0;
        while i < labels.len()
            invariant
                i <= labels@.len(),
                views == labels@.map_values(|l: Sp<StmtLabel>| label_view(l)),
                self.same_setting(*ty_ctx, *old(self), *ty_ctx),
                lower_labels(old(self).st(*ty_ctx), views, i as nat) == (
                    self.st(*ty_ctx),
                    None::<ErrorV>,
                ),
            decreases labels@.len() - i,
        {
            assert(views[i as int] == label_view(labels@[i as int]));
            match &labels[i].value {
                StmtLabel::Label(ident) => self.push(LowLevelStmt::Label(ident.clone())),
                StmtLabel::Difficulty { .. } => {
                    let e: Error = Diagnostic::Unsupported { span: labels[i].span };
                    proof {
                        lemma_labels_stop(
                            old(self).st(*ty_ctx),
                            views,
                            (i + 1) as nat,
                            views.len(),
                        );
                    }
                    return Err(e);
                },
            }
            i = i + 1;
        }
        Ok(())
    }
}

impl<'a, F: InstrFormat> Lowerer<'a, F> {
    /// Lowers a statement without its labels.
    ///
    /// `end` is set to the name of an instruction that ends the script.
    fn body(
        &mut self,
        ty_ctx: &mut TypeSystem,
        end: &mut Option<Span>,
        errors: &mut CompileError,
        time: i32,
        body: &Sp<StmtBody>,
    )
        ensures
            final(self).same_setting(*final(ty_ctx), *old(self), *old(ty_ctx)),
            final(self).sub(*final(ty_ctx), *final(end), final(errors)@) == lower_body(
                old(self).cx(*old(ty_ctx)),
                *old(self).instr_format,
                old(self).sub(*old(ty_ctx), *old(end), old(errors)@),
                time,
                body_view(*body),
            ),
    {
        let result: Result<(), Error> = match &body.value {
            StmtBody::Jump(goto) => {
                if goto.time.is_some() && !self.instr_format.jump_has_time_arg() {
                    Err(Diagnostic::GotoTimeUnsupported { span: body.span })
                } else {
                    let (label_arg, time_arg) = lower_goto_args(goto);
                    let args = vec![label_arg, time_arg];
                    assert(args_view(args@) =~= seq![label_arg@, time_arg@]);
                    self.emit(ty_ctx, time, IntrinsicInstrKind::Jmp, body.span, args)
                }
            },
            StmtBody::Assignment { var, op, value } => self.assign_op(
                ty_ctx,
                body.span,
                time,
                var,
                op,
                value,
            ),
            StmtBody::InterruptLabel(interrupt_id) => {
                let args = vec![InstrArg::Raw(RawArg::from(interrupt_id.value))];
                assert(args_view(args@) =~= seq![
                    InstrArgV::Raw(
                        RawArg { bits: interrupt_id.value as u32, is_var: false },
                    ),
                ]);
                self.emit(ty_ctx, time, IntrinsicInstrKind::InterruptLabel, body.span, args)
            },
            StmtBody::CondJump { keyword, cond, jump } => self.cond_jump(
                ty_ctx,
                body.span,
                time,
                keyword,
                cond,
                jump,
            ),
            StmtBody::Expr(expr) => match &expr.value {
                Expr::Call { func, args } => {
                    match self.func_stmt(ty_ctx, time, func, args) {
                        Ok(opcode) => {
                            if self.instr_format.is_th06_anm_terminating_instr(opcode) {
                                *end = Some(func.span);
                            }
                        },
                        Err(e) => {
                            errors.append(e);
                        },
                    }
                    return ;
                },
                _ => Err(Diagnostic::Unsupported { span: body.span }),
            },
            StmtBody::Label(ident) => {
                self.push(LowLevelStmt::Label(ident.clone()));
                Ok(())
            },
            StmtBody::NoInstruction => Ok(()),
            _ => Err(Diagnostic::Unsupported { span: body.span }),
        };
        match result {
            Ok(_) => {
                assert(old(errors)@ + errors_of(None) =~= old(errors)@);
            },
            Err(e) => {
                errors.push(e);
                assert(old(errors)@ + errors_of(Some(e@)) =~= old(errors)@.push(e@));
            },
        }
    }

    pub open spec fn sub(self, ty_ctx: TypeSystem, end: Option<Span>, errors: Seq<ErrorV>) -> SubSt {
        SubSt { st: self.st(ty_ctx), end, errors }
    }

    /// Lowers the statements of a script, and gathers all errors.
    pub fn lower_sub_ast(&mut self, ty_ctx: &mut TypeSystem, code: &Vec<Sp<Stmt>>) -> (r: Result<
        (),
        CompileError,
    >)
        ensures
            final(self).same_setting(*final(ty_ctx), *old(self), *old(ty_ctx)),
            ({
                let sub = lower_sub_ast(
                    old(self).cx(*old(ty_ctx)),
                    *old(self).instr_format,
                    old(self).st(*old(ty_ctx)),
                    stmts_view(code@, code@.len()),
                    code@.len(),
                );
                &&& final(self).st(*final(ty_ctx)) == sub.st
                &&& sub.errors.len() == 0 <==> r is Ok
                &&& r matches Err(e) ==> e@ == sub.errors
            }),
    {
        let ghost views = stmts_view(code@, code@.len());
        proof {
            lemma_stmts_view(code@, code@.len());
        }
        let mut th06_anm_end_span: Option<Span> = None;
        let mut errors = CompileError::new_empty();
        let mut i: usize = 0;
        while i < code.len()
            invariant
                i <= code@.len(),
                views.len() == code@.len(),
                forall|j: int| 0 <= j < code@.len() ==> #[trigger] views[j] == stmt_view(code@[j]),
                self.same_setting(*ty_ctx, *old(self), *old(ty_ctx)),
                lower_sub_ast(
                    old(self).cx(*old(ty_ctx)),
                    *old(self).instr_format,
                    old(self).st(*old(ty_ctx)),
                    views,
                    i as nat,
                ) == self.sub(*ty_ctx, th06_anm_end_span, errors@),
            decreases code@.len() - i,
        {
            let stmt = &code[i].value;
            assert(views[i as int] == stmt_view(code@[i as int]));
            let ghost before = self.sub(*ty_ctx, th06_anm_end_span, errors@);
            i = i + 1;
            let no_instruction: bool = match &stmt.body.value {
                StmtBody::NoInstruction => true,
                _ => false,
            };
            if let Some(end) = th06_anm_end_span {
                if !no_instruction {
                    let e: Error = Diagnostic::StatementAfterEnd { stmt: stmt.body.span, end };
                    errors.push(e);
                    assert(before.errors + errors_of(Some(e@)) =~= before.errors.push(e@));
                    continue ;
                }
            }
            match self.labels(ty_ctx, &stmt.labels) {
                Err(e) => {
                    errors.push(e);
                    assert(before.errors + errors_of(Some(e@)) =~= before.errors.push(e@));
                    continue ;
                },
                Ok(_) => {},
            }
            self.body(ty_ctx, &mut th06_anm_end_span, &mut errors, stmt.time, &stmt.body);
        }
        errors.into_result(())
    }
}

/// Labels behind one that cannot be lowered change nothing.
proof fn lemma_labels_stop(st: LowerSt, labels: Seq<Sp<LabelV>>, m: nat, n: nat)
    requires
        m <= n,
        lower_labels(st, labels, m).1 is Some,
    ensures
        lower_labels(st, labels, n) == lower_labels(st, labels, m),
    decreases n,
{
    if m < n {
        lemma_labels_stop(st, labels, m, (n - 1) as nat);
    }
}

/// A result with its errors taken by view.
pub open spec fn errors_result(r: Result<u16, CompileError>) -> Result<u16, Seq<ErrorV>> {
    match r {
        Ok(x) => Ok(x),
        Err(e) => Err(e@),
    }
}

fn copy_encodings(v: &Vec<ArgEncoding>) -> (r: Vec<ArgEncoding>)
    ensures
        r@ == v@,
{
    let mut out: Vec<ArgEncoding> = Vec::new();
    let mut i: usize = 0;
    while i < v.len()
        invariant
            i <= v@.len(),
            out@ == v@.take(i as int),
        decreases v@.len() - i,
    {
        out.push(v[i]);
        i = i + 1;
        assert(out@ =~= v@.take(i as int));
    }
    assert(v@.take(i as int) =~= v@);
    out
}

// =============================================================================

/// The instructions among low-level statements.
pub open spec fn instrs_only(code: Seq<LowV>) -> Seq<InstrV>
    decreases code.len(),
{
    if code.len() == 0 {
        seq![]
    } else {
        let before = instrs_only(code.drop_last());
        match code.last() {
            LowV::Instr(instr) => before.push(instr),
            _ => before,
        }
    }
}

/// The instructions of a script, with the variables that there are after lowering it.
pub open spec fn lower_script<F: InstrFormat>(
    regs: RegsAndInstrs,
    format: F,
    vars: Seq<VarInfoV>,
    code: Seq<Sp<StmtV>>,
) -> (Seq<VarInfoV>, Result<Seq<InstrV>, Seq<ErrorV>>) {
    let cx = LowerCx { regs, pairs: effective_pairs(format.pairs_spec()) };
    let sub = lower_sub_ast(cx, format, LowerSt { out: seq![], vars }, code, code.len());
    (
        sub.st.vars,
        if sub.errors.len() > 0 {
            Err(sub.errors)
        } else {
            match encode_labels_spec(format, 0, sub.st.out) {
                Err(errors) => Err(errors),
                Ok(encoded) => match assign_registers_spec(format, sub.st.vars, encoded) {
                    Err(e) => Err(seq![e]),
                    Ok(assigned) => Ok(instrs_only(assigned)),
                },
            }
        },
    )
}

/// Lowers the statements of a script to instructions, with all labels and temporaries resolved.
pub fn lower_sub_ast_to_instrs<F: InstrFormat>(
    instr_format: &F,
    code: &Vec<Sp<Stmt>>,
    ty_ctx: &mut TypeSystem,
) -> (r: Result<Vec<Instr>, CompileError>)
    ensures
        final(ty_ctx).regs_and_instrs == old(ty_ctx).regs_and_instrs,
        final(ty_ctx).gensym_ctx == old(ty_ctx).gensym_ctx,
        ({
            let (vars, lowered) = lower_script(
                old(ty_ctx).regs_and_instrs,
                *instr_format,
                old(ty_ctx).variables@,
                stmts_view(code@, code@.len()),
            );
            &&& final(ty_ctx).variables@ == vars
            &&& match lowered {
                Ok(instrs) => r matches Ok(v) && instrs_view(v@) == instrs,
                Err(errors) => r matches Err(e) && e@ == errors,
            }
        }),
{
    proof {
        lemma_stmts_view(code@, code@.len());
    }
    let mut lowerer = Lowerer {
        out: Vec::new(),
        intrinsic_instrs: instr_format.intrinsic_instrs(),
        instr_format,
    };
    assert(low_view(lowerer.out@) =~= seq![]);
    match lowerer.lower_sub_ast(ty_ctx, code) {
        Ok(_) => {},
        Err(e) => return Err(e),
    }

    // And now postprocess
    proof {
        instr_format.lemma_offsets(0, arbitrary());
    }
    let encoded = match encode_labels(lowerer.out, instr_format, 0) {
        Ok(x) => x,
        Err(e) => return Err(e),
    };
    let assigned = match assign_registers(encoded, instr_format, &ty_ctx.variables) {
        Ok(x) => x,
        Err(e) => return Err(CompileError::one(e)),
    };
    Ok(keep_instrs(assigned))
}

fn keep_instrs(code: Vec<LowLevelStmt>) -> (r: Vec<Instr>)
    ensures
        instrs_view(r@) == instrs_only(low_view(code@)),
{
    let ghost views = low_view(code@);
    let mut code = code;
    let mut rev: Vec<Instr> = Vec::new();
    let mut n: usize = code.len();
    let ghost all = instrs_only(views);
    proof {
        assert(views.take(n as int) =~= views);
        assert(all =~= all + seq![]);
        assert(instrs_view(rev@).reverse() =~= seq![]);
    }
    while n > 0
        invariant
            n == code@.len(),
            n <= views.len(),
            low_view(code@) == views.take(n as int),
            all == instrs_only(views.take(n as int)) + instrs_view(rev@).reverse(),
        decreases n,
    {
        let ghost before = code@;
        let ghost tail = instrs_view(rev@);
        let stmt = code.pop();
        proof {
            assert(views.take(n as int).drop_last() =~= views.take(n - 1));
            assert(low_view(code@) =~= views.take(n - 1));
            assert(views.take(n as int).last() == before.last()@);
        }
        match stmt {
            Some(LowLevelStmt::Instr(instr)) => {
                let ghost i = instr@;
                rev.push(instr);
                proof {
                    assert(instrs_view(rev@) =~= tail.push(i));
                    assert(instrs_view(rev@).reverse() =~= seq![i] + tail.reverse());
                    let head = instrs_only(views.take(n - 1));
                    assert(head.push(i) + tail.reverse() =~= head + (seq![i] + tail.reverse()));
                }
            },
            _ => {},
        }
        n = n - 1;
    }
    assert(views.take(0) =~= seq![]);
    assert(all =~= instrs_view(rev@).reverse());
    let mut out: Vec<Instr> = Vec::new();
    let ghost total = instrs_view(rev@);
    let mut m: usize = rev.len();
    assert(total.take(m as int) =~= total);
    while m > 0
        invariant
            m == rev@.len(),
            m <= total.len(),
            instrs_view(rev@) == total.take(m as int),
            instrs_view(out@) == total.reverse().take(total.len() - m),
        decreases m,
    {
        let ghost before = rev@;
        let ghost done = instrs_view(out@);
        match rev.pop() {
            Some(instr) => {
                let ghost i = instr@;
                out.push(instr);
                proof {
                    assert(instrs_view(before)[m - 1] == i);
                    assert(instrs_view(out@) =~= done.push(i));
                    assert(instrs_view(rev@) =~= total.take(m - 1));
                    assert(total.reverse()[total.len() - m] == i);
                }
            },
            None => {},
        }
        m = m - 1;
        assert(instrs_view(out@) =~= total.reverse().take(total.len() - m));
    }
    assert(total.reverse().take(total.len() as int) =~= total.reverse());
    out
}

} // verus!
