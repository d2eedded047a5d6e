//! What statements say, and that lowered code does it.

use crate::ident::as_ins_spec;
use crate::instr::format::InstrFormat;
use crate::instr::lower::{
    cond_jump, frees, func_stmt, goto_args, lower_args, lower_body, lower_labels, lower_stmt,
    lower_sub_ast, lower_var, LowerCx, LowerSt, SubSt,
};
use crate::instr::meaning::{
    apart, assigned_value, changed_only, expr_ok, extends, lemma_args, lemma_assign, lemma_cond,
    lemma_emit, lemma_frame, lemma_push, lemma_target, lemma_var_arg, opcodes_unique, passes,
    reached, type_of, var_ok, var_place, Event, Machine, Memory, RunSt,
};
use crate::instr::{intrinsic_of, InstrArgV, InstrV, IntrinsicInstrKind, LowV, RawArg};
use crate::passes::const_simplify::run_expr;
use crate::pos::{Sp, Span, Spanned};
use crate::scope::VarInfoV;
use crate::script::{BodyV, CondKeyword, CondV, ExprV, GotoV, LabelV, StmtV, VarV};
use crate::type_system::{var_type_spec, RegsAndInstrs, ScalarType};
use crate::value::ScalarValue;
use vstd::prelude::*;

verus! {

/// The state behind the first `n` labels of a statement.
pub open spec fn labels_say(st: RunSt, labels: Seq<Sp<LabelV>>, n: nat) -> RunSt
    decreases n,
{
    if n == 0 {
        st
    } else {
        let before = labels_say(st, labels, (n - 1) as nat);
        match labels[n - 1].value {
            LabelV::Label(l) => before.noting(Event::Label(l.value)),
            LabelV::Difficulty { .. } => before,
        }
    }
}

/// The state behind a statement that is carried out as it says, without its labels; `None` if it
/// has a value that is not defined, or is not one that can be carried out.
pub open spec fn body_says(
    machine: Machine,
    regs: RegsAndInstrs,
    vars: Seq<VarInfoV>,
    st: RunSt,
    body: BodyV,
) -> Option<RunSt> {
    let env = machine.env(regs, vars, st.mem);
    match body {
        BodyV::NoInstruction => Some(st),
        BodyV::Label(l) => Some(st.noting(Event::Label(l.value))),
        BodyV::InterruptLabel(n) => Some(st.noting(Event::Interrupt(n.value))),
        BodyV::Jump(goto) => Some(
            st.noting(Event::Jump { to: goto.destination.value, time: goto.time }),
        ),
        BodyV::CondJump { cond, jump, .. } => match cond.value {
            CondV::Expr(e) => match run_expr(env, e) {
                Some(value) => Some(
                    st.noting(
                        Event::Test { value, to: jump.destination.value, time: jump.time },
                    ),
                ),
                None => None,
            },
            CondV::Decrement(var) => match var_place(regs, var.value) {
                Some(place) => Some(
                    st.noting(
                        Event::Count { place, to: jump.destination.value, time: jump.time },
                    ),
                ),
                None => None,
            },
        },
        BodyV::Assignment { var, op, value } => match (
            assigned_value(machine, regs, vars, st.mem, var.value, op.value, value),
            var_place(regs, var.value),
        ) {
            (Some(v), Some(place)) => Some(st.write(place, v)),
            _ => None,
        },
        BodyV::Expr(e) => match e.value {
            ExprV::Call { func, args } => match as_ins_spec(
                regs.resolve_func_aliases_spec(func.value),
            ) {
                Some(opcode) => if forall|i: int|
                    0 <= i < args.len() ==> run_expr(env, #[trigger] args[i]) is Some {
                    Some(
                        st.noting(
                            Event::Call {
                                opcode,
                                args: Seq::new(args.len(), |i: int| run_expr(env, args[i])->0),
                            },
                        ),
                    )
                } else {
                    None
                },
                None => None,
            },
            _ => None,
        },
        _ => None,
    }
}

/// The state behind a statement that is carried out as it says.
pub open spec fn stmt_says(
    machine: Machine,
    regs: RegsAndInstrs,
    vars: Seq<VarInfoV>,
    st: RunSt,
    stmt: StmtV,
) -> Option<RunSt> {
    body_says(
        machine,
        regs,
        vars,
        labels_say(st, stmt.labels, stmt.labels.len()),
        stmt.body.value,
    )
}

/// The state behind the first `n` statements, carried out one after the other.
pub open spec fn code_says(
    machine: Machine,
    regs: RegsAndInstrs,
    vars: Seq<VarInfoV>,
    st: RunSt,
    code: Seq<Sp<StmtV>>,
    n: nat,
) -> Option<RunSt>
    decreases n,
{
    if n == 0 {
        Some(st)
    } else {
        match code_says(machine, regs, vars, st, code, (n - 1) as nat) {
            Some(before) => stmt_says(machine, regs, vars, before, code[n - 1].value),
            None => None,
        }
    }
}

/// Whether a statement is well typed: both sides of an assignment have one type and no other name
/// of the variable occurs in it, both sides of a condition have one type, and a call is of an
/// instruction that stands for no operation and reads its arguments as its signature says.
pub open spec fn body_ok(machine: Machine, cx: LowerCx, vars: Seq<VarInfoV>, body: BodyV) -> bool {
    match body {
        BodyV::Assignment { var, value, .. } => {
            &&& var_ok(cx.regs, vars, var.value)
            &&& expr_ok(cx.regs, vars, value)
            &&& apart(cx.regs, value, var.value)
            &&& type_of(cx.regs, vars, value) is Some
            &&& type_of(cx.regs, vars, value) == var_type_spec(cx.regs, vars, var.value)
        },
        BodyV::CondJump { cond, .. } => match cond.value {
            CondV::Expr(e) => {
                &&& expr_ok(cx.regs, vars, e)
                &&& e.value matches ExprV::Binop(a, _, b) ==> {
                    &&& type_of(cx.regs, vars, *a) is Some
                    &&& type_of(cx.regs, vars, *a) == type_of(cx.regs, vars, *b)
                }
            },
            CondV::Decrement(var) => var_ok(cx.regs, vars, var.value),
        },
        BodyV::Expr(e) => match e.value {
            ExprV::Call { func, args } => {
                &&& forall|i: int|
                    0 <= i < args.len() ==> expr_ok(cx.regs, vars, #[trigger] args[i]) && type_of(
                        cx.regs,
                        vars,
                        args[i],
                    ) is Some
                &&& as_ins_spec(cx.regs.resolve_func_aliases_spec(func.value)) matches Some(
                    opcode,
                ) ==> {
                    &&& intrinsic_of(cx.pairs, opcode) is None
                    &&& cx.regs.ins_signature_spec(opcode) matches Some(encodings) ==> forall|
                        i: int,
                    |
                        0 <= i < args.len() ==> #[trigger] (machine.types)(opcode, i)
                            == encodings[i].expected_type_spec()
                }
            },
            _ => true,
        },
        _ => true,
    }
}

/// Whether two states differ at most in the values of temporaries from the `n`-th on.
pub open spec fn agree(a: RunSt, b: RunSt, n: nat) -> bool {
    a.events == b.events && changed_only(a.mem, b.mem, None, n)
}

proof fn lemma_labels(
    machine: Machine,
    cx: LowerCx,
    start: RunSt,
    st: LowerSt,
    now: RunSt,
    labels: Seq<Sp<LabelV>>,
    n: nat,
)
    requires
        reached(machine, cx, start, st, now),
        lower_labels(st, labels, n).1 is None,
    ensures
        reached(machine, cx, start, lower_labels(st, labels, n).0, labels_say(now, labels, n)),
        lower_labels(st, labels, n).0.vars == st.vars,
        labels_say(now, labels, n).mem == now.mem,
    decreases n,
{
    if n > 0 {
        lemma_labels(machine, cx, start, st, now, labels, (n - 1) as nat);
        let (st1, err) = lower_labels(st, labels, (n - 1) as nat);
        let before = labels_say(now, labels, (n - 1) as nat);
        if let LabelV::Label(l) = labels[n - 1].value {
            lemma_push(machine, cx, start, st1, before, LowV::Label(l));
        }
    }
}

proof fn lemma_frees(
    machine: Machine,
    cx: LowerCx,
    start: RunSt,
    out: Seq<LowV>,
    more: Seq<LowV>,
    now: RunSt,
)
    requires
        machine.run(cx.pairs, start, out) == Some(now),
        forall|i: int| 0 <= i < more.len() ==> (#[trigger] more[i]) is RegFree,
    ensures
        machine.run(cx.pairs, start, out + more) == Some(now),
    decreases more.len(),
{
    if more.len() == 0 {
        assert(out + more =~= out);
    } else {
        lemma_frees(machine, cx, start, out, more.drop_last(), now);
        assert((out + more).drop_last() =~= out + more.drop_last());
        assert((out + more).last() == more.last());
        assert(more[more.len() - 1] is RegFree);
    }
}

proof fn lemma_call(
    machine: Machine,
    cx: LowerCx,
    start: RunSt,
    st: LowerSt,
    now: RunSt,
    time: i32,
    func: Sp<Seq<char>>,
    args: Seq<Sp<ExprV>>,
    src: RunSt,
) -> (end: RunSt)
    requires
        reached(machine, cx, start, st, now),
        ({
            let body = BodyV::Expr(
                Spanned { span: func.span, value: ExprV::Call { func, args } },
            );
            &&& body_ok(machine, cx, st.vars, body)
            &&& body_says(machine, cx.regs, st.vars, now, body) == Some(src)
        }),
        func_stmt(cx, st, time, func, args).1 is Ok,
    ensures
        reached(machine, cx, start, func_stmt(cx, st, time, func, args).0, end),
        extends(st.vars, func_stmt(cx, st, time, func, args).0.vars),
        agree(src, end, st.vars.len()),
{
    let opcode = as_ins_spec(cx.regs.resolve_func_aliases_spec(func.value))->0;
    let encodings = cx.regs.ins_signature_spec(opcode)->0;
    let env = machine.env(cx.regs, st.vars, now.mem);
    assert forall|i: int| 0 <= i < args.len() implies run_expr(env, #[trigger] args[i]) is Some by {
    }
    let low = lower_args(cx, st, time, func, encodings, args, args.len());
    let mid = lemma_args(machine, cx, start, st, now, time, func, encodings, args, args.len());
    let instr = InstrV { time, opcode, args: low.args };
    lemma_push(machine, cx, start, low.st, mid, LowV::Instr(instr));
    let values = Seq::new(
        instr.args.len(),
        |i: int| machine.arg_value(mid.mem, instr.args[i], (machine.types)(opcode, i)),
    );
    let said = Seq::new(args.len(), |i: int| run_expr(env, args[i])->0);
    assert forall|i: int| 0 <= i < args.len() implies #[trigger] values[i] == said[i] by {
        assert((machine.types)(opcode, i) == encodings[i].expected_type_spec());
        assert(passes(
            machine,
            env,
            low.st.vars,
            mid.mem,
            low.args[i],
            encodings[i].expected_type_spec(),
            args[i],
        ));
    }
    assert(values =~= said);
    let end = mid.noting(Event::Call { opcode, args: values });
    let more = frees(low.temps);
    assert forall|i: int| 0 <= i < more.len() implies (#[trigger] more[i]) is RegFree by {
    }
    lemma_frees(machine, cx, start, low.st.push(LowV::Instr(instr)).out, more, end);
    end
}

proof fn lemma_cond_jump(
    machine: Machine,
    cx: LowerCx,
    start: RunSt,
    st: LowerSt,
    now: RunSt,
    span: Span,
    time: i32,
    keyword: Sp<CondKeyword>,
    cond: Sp<CondV>,
    jump: GotoV,
    src: RunSt,
) -> (end: RunSt)
    requires
        reached(machine, cx, start, st, now),
        body_ok(machine, cx, st.vars, BodyV::CondJump { keyword, cond, jump }),
        body_says(machine, cx.regs, st.vars, now, BodyV::CondJump { keyword, cond, jump }) == Some(
            src,
        ),
        cond_jump(cx, st, span, time, keyword, cond, jump).1 is None,
    ensures
        reached(machine, cx, start, cond_jump(cx, st, span, time, keyword, cond, jump).0, end),
        extends(st.vars, cond_jump(cx, st, span, time, keyword, cond, jump).0.vars),
        agree(src, end, st.vars.len()),
{
    match cond.value {
        CondV::Expr(e) => match e.value {
            ExprV::Binop(a, op, b) => {
                let env = machine.env(cx.regs, st.vars, now.mem);
                lemma_cond(
                    machine,
                    cx,
                    start,
                    st,
                    now,
                    time,
                    *a,
                    op,
                    *b,
                    jump,
                    type_of(cx.regs, st.vars, *a)->0,
                    run_expr(env, *a)->0,
                    run_expr(env, *b)->0,
                    run_expr(env, e)->0,
                )
            },
            _ => src,
        },
        CondV::Decrement(var) => {
            lemma_var_arg(cx.regs, st.vars, var);
            let (arg, ty) = lower_var(cx.regs, st.vars, var)->Ok_0;
            let args = seq![arg, goto_args(jump).0, goto_args(jump).1];
            lemma_emit(
                machine,
                cx,
                start,
                st,
                now,
                time,
                IntrinsicInstrKind::CountJmp,
                span,
                args,
            );
            lemma_target(jump);
            src
        },
    }
}

proof fn lemma_body<F: InstrFormat>(
    machine: Machine,
    cx: LowerCx,
    format: F,
    start: RunSt,
    sub: SubSt,
    now: RunSt,
    time: i32,
    body: Sp<BodyV>,
    src: RunSt,
) -> (end: RunSt)
    requires
        reached(machine, cx, start, sub.st, now),
        body_ok(machine, cx, sub.st.vars, body.value),
        body_says(machine, cx.regs, sub.st.vars, now, body.value) == Some(src),
        lower_body(cx, format, sub, time, body).errors.len() == sub.errors.len(),
    ensures
        reached(machine, cx, start, lower_body(cx, format, sub, time, body).st, end),
        extends(sub.st.vars, lower_body(cx, format, sub, time, body).st.vars),
        agree(src, end, sub.st.vars.len()),
{
    let st = sub.st;
    let after = lower_body(cx, format, sub, time, body).st;
    match body.value {
        BodyV::Jump(goto) => {
            let args = seq![goto_args(goto).0, goto_args(goto).1];
            lemma_emit(
                machine,
                cx,
                start,
                st,
                now,
                time,
                IntrinsicInstrKind::Jmp,
                body.span,
                args,
            );
            lemma_target(goto);
            src
        },
        BodyV::InterruptLabel(n) => {
            let args = seq![InstrArgV::Raw(RawArg { bits: n.value as u32, is_var: false })];
            lemma_emit(
                machine,
                cx,
                start,
                st,
                now,
                time,
                IntrinsicInstrKind::InterruptLabel,
                body.span,
                args,
            );
            let v = n.value;
            assert((v as u32) as i32 == v) by (bit_vector);
            assert(machine.arg_value(now.mem, args[0], ScalarType::Int) == ScalarValue::Int(v));
            src
        },
        BodyV::Assignment { var, op, value } => {
            let v = assigned_value(
                machine,
                cx.regs,
                st.vars,
                now.mem,
                var.value,
                op.value,
                value,
            )->0;
            lemma_assign(machine, cx, start, st, now, body.span, time, var, op, value, v)
        },
        BodyV::CondJump { keyword, cond, jump } => {
            lemma_cond_jump(
                machine,
                cx,
                start,
                st,
                now,
                body.span,
                time,
                keyword,
                cond,
                jump,
                src,
            )
        },
        BodyV::Expr(e) => match e.value {
            ExprV::Call { func, args } => {
                lemma_call(machine, cx, start, st, now, time, func, args, src)
            },
            _ => src,
        },
        BodyV::Label(l) => {
            lemma_push(machine, cx, start, st, now, LowV::Label(l));
            src
        },
        _ => src,
    }
}

/// Lowered code does what the statement says.  Where the statement is well typed, its values are
/// defined and it is lowered without an error, the code passes its labels and then
///
/// - leaves the value in the variable, for an assignment;
/// - goes where a jump goes, and sets the time that it sets;
/// - decides about a jump by the value of its condition, with the left side on the left;
/// - counts the variable down, for a jump that counts;
/// - carries the instruction out with the values of the arguments, for a call;
///
/// and changes nothing else but temporaries of its own.
pub proof fn law_code_does_what_the_statement_says<F: InstrFormat>(
    machine: Machine,
    cx: LowerCx,
    format: F,
    start: RunSt,
    sub: SubSt,
    now: RunSt,
    stmt: StmtV,
    src: RunSt,
) -> (end: RunSt)
    requires
        machine.wf(),
        opcodes_unique(cx.pairs),
        cx.regs.reg_map@.len() <= sub.st.vars.len(),
        machine.run(cx.pairs, start, sub.st.out) == Some(now),
        body_ok(machine, cx, sub.st.vars, stmt.body.value),
        stmt_says(machine, cx.regs, sub.st.vars, now, stmt) == Some(src),
        lower_stmt(cx, format, sub, stmt).errors.len() == sub.errors.len(),
    ensures
        machine.run(cx.pairs, start, lower_stmt(cx, format, sub, stmt).st.out) == Some(end),
        agree(src, end, sub.st.vars.len()),
        extends(sub.st.vars, lower_stmt(cx, format, sub, stmt).st.vars),
{
    let n = stmt.labels.len();
    let (st1, err) = lower_labels(sub.st, stmt.labels, n);
    lemma_labels(machine, cx, start, sub.st, now, stmt.labels, n);
    lemma_body(
        machine,
        cx,
        format,
        start,
        SubSt { st: st1, ..sub },
        labels_say(now, stmt.labels, n),
        stmt.time,
        stmt.body,
        src,
    )
}

/// A variable has the same value in states that agree.
proof fn lemma_var_frame(
    machine: Machine,
    regs: RegsAndInstrs,
    vars: Seq<VarInfoV>,
    more: Seq<VarInfoV>,
    before: Memory,
    after: Memory,
    var: Sp<VarV>,
)
    requires
        regs.reg_map@.len() <= vars.len(),
        var_ok(regs, vars, var.value),
        extends(vars, more),
        changed_only(before, after, None, vars.len()),
    ensures
        var_ok(regs, more, var.value),
        var_type_spec(regs, more, var.value) == var_type_spec(regs, vars, var.value),
        machine.var_value(regs, more, after, var.value) == machine.var_value(
            regs,
            vars,
            before,
            var.value,
        ),
{
    let e = Spanned { span: var.span, value: ExprV::Var(var) };
    lemma_frame(machine, regs, vars, more, before, after, None, e);
    assert(type_of(regs, more, e) == var_type_spec(regs, more, var.value));
    assert(type_of(regs, vars, e) == var_type_spec(regs, vars, var.value));
    assert(run_expr(machine.env(regs, more, after), e) == machine.var_value(
        regs,
        more,
        after,
        var.value,
    ));
    assert(run_expr(machine.env(regs, vars, before), e) == machine.var_value(
        regs,
        vars,
        before,
        var.value,
    ));
}

/// A statement says the same in states that agree.
proof fn lemma_says_the_same(
    machine: Machine,
    cx: LowerCx,
    vars: Seq<VarInfoV>,
    more: Seq<VarInfoV>,
    a: RunSt,
    b: RunSt,
    body: BodyV,
    src: RunSt,
) -> (said: RunSt)
    requires
        cx.regs.reg_map@.len() <= vars.len(),
        extends(vars, more),
        agree(a, b, vars.len()),
        body_ok(machine, cx, vars, body),
        body_says(machine, cx.regs, vars, a, body) == Some(src),
    ensures
        body_ok(machine, cx, more, body),
        body_says(machine, cx.regs, more, b, body) == Some(said),
        agree(src, said, vars.len()),
{
    let regs = cx.regs;
    let env = machine.env(regs, vars, a.mem);
    let env2 = machine.env(regs, more, b.mem);
    match body {
        BodyV::Assignment { var, op, value } => {
            lemma_frame(machine, regs, vars, more, a.mem, b.mem, None, value);
            lemma_var_frame(machine, regs, vars, more, a.mem, b.mem, var);
        },
        BodyV::CondJump { cond, .. } => match cond.value {
            CondV::Expr(e) => {
                lemma_frame(machine, regs, vars, more, a.mem, b.mem, None, e);
                if let ExprV::Binop(x, _, y) = e.value {
                    lemma_frame(machine, regs, vars, more, a.mem, b.mem, None, *x);
                    lemma_frame(machine, regs, vars, more, a.mem, b.mem, None, *y);
                }
            },
            CondV::Decrement(var) => {
                lemma_var_frame(machine, regs, vars, more, a.mem, b.mem, var);
            },
        },
        BodyV::Expr(e) => match e.value {
            ExprV::Call { func, args } => {
                assert forall|i: int| 0 <= i < args.len() implies {
                    &&& expr_ok(regs, more, #[trigger] args[i])
                    &&& type_of(regs, more, args[i]) is Some
                    &&& run_expr(env2, args[i]) == run_expr(env, args[i])
                } by {
                    lemma_frame(machine, regs, vars, more, a.mem, b.mem, None, args[i]);
                }
                assert(Seq::new(args.len(), |i: int| run_expr(env2, args[i])->0) =~= Seq::new(
                    args.len(),
                    |i: int| run_expr(env, args[i])->0,
                ));
            },
            _ => {},
        },
        _ => {},
    }
    body_says(machine, regs, more, b, body)->0
}

proof fn lemma_labels_agree(a: RunSt, b: RunSt, labels: Seq<Sp<LabelV>>, n: nat, k: nat)
    requires
        agree(a, b, k),
    ensures
        agree(labels_say(a, labels, n), labels_say(b, labels, n), k),
    decreases n,
{
    if n > 0 {
        lemma_labels_agree(a, b, labels, (n - 1) as nat, k);
    }
}

/// The errors of statements only grow.
proof fn lemma_errors_grow<F: InstrFormat>(cx: LowerCx, format: F, sub: SubSt, stmt: StmtV)
    ensures
        sub.errors.len() <= lower_stmt(cx, format, sub, stmt).errors.len(),
{
}

/// Lowered code does what the statements of a script say, one after the other.  Where they are well
/// typed, their values are defined and they are lowered without an error, the code leaves the
/// values that they leave, and does all else that they do, in the same order.
pub proof fn law_code_does_what_the_script_says<F: InstrFormat>(
    machine: Machine,
    cx: LowerCx,
    format: F,
    vars: Seq<VarInfoV>,
    start: RunSt,
    code: Seq<Sp<StmtV>>,
    n: nat,
    src: RunSt,
) -> (end: RunSt)
    requires
        machine.wf(),
        opcodes_unique(cx.pairs),
        cx.regs.reg_map@.len() <= vars.len(),
        n <= code.len(),
        forall|i: int|
            0 <= i < n ==> body_ok(machine, cx, vars, (#[trigger] code[i]).value.body.value),
        code_says(machine, cx.regs, vars, start, code, n) == Some(src),
        lower_sub_ast(cx, format, LowerSt { out: Seq::empty(), vars }, code, n).errors.len() == 0,
    ensures
        machine.run(
            cx.pairs,
            start,
            lower_sub_ast(cx, format, LowerSt { out: Seq::empty(), vars }, code, n).st.out,
        ) == Some(end),
        agree(src, end, vars.len()),
        extends(
            vars,
            lower_sub_ast(cx, format, LowerSt { out: Seq::empty(), vars }, code, n).st.vars,
        ),
    decreases n,
{
    let st = LowerSt { out: Seq::empty(), vars };
    if n == 0 {
        start
    } else {
        let sub = lower_sub_ast(cx, format, st, code, (n - 1) as nat);
        let stmt = code[n - 1].value;
        lemma_errors_grow(cx, format, sub, stmt);
        let before = code_says(machine, cx.regs, vars, start, code, (n - 1) as nat)->0;
        let now = law_code_does_what_the_script_says(
            machine,
            cx,
            format,
            vars,
            start,
            code,
            (n - 1) as nat,
            before,
        );
        let k = stmt.labels.len();
        lemma_labels_agree(before, now, stmt.labels, k, vars.len());
        let said = lemma_says_the_same(
            machine,
            cx,
            vars,
            sub.st.vars,
            labels_say(before, stmt.labels, k),
            labels_say(now, stmt.labels, k),
            stmt.body.value,
            src,
        );
        let end = law_code_does_what_the_statement_says(
            machine,
            cx,
            format,
            start,
            sub,
            now,
            stmt,
            said,
        );
        end
    }
}

} // verus!
