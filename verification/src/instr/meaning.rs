//! What lowered code does, and that it does what the statements say.

use crate::error::ErrorV;
use crate::float32::{law_int_round_trip, F32};
use crate::instr::lower::{
    allocate, assign_op, cond_jump_binop, define_temp, direct_binop, emit, goto_args, lower_args,
    lower_var, release, simple_arg, temp_var, uses_var, var_expr, weight, LowerCx, LowerSt,
};
use crate::instr::{intrinsic_of, opcode_of, InstrArgV, InstrV, IntrinsicInstrKind, LowV, RawArg};
use crate::passes::const_simplify::{run_binop, run_expr, Env, FloatOp};
use crate::pos::{Sp, Span, Spanned};
use crate::scope::{VarId, VarInfoV};
use crate::script::{AssignOpKind, BinopKind, ExprV, GotoV, VarV};
use crate::type_system::{shallow_type, var_type_spec, ArgEncoding, RegsAndInstrs, ScalarType};
use crate::value::ScalarValue;
use vstd::prelude::*;

verus! {

// =============================================================================
// Machines

/// Where a value is kept.
pub ghost enum Place {
    Reg(i32),
    Temp(VarId),
}

/// The values at all places.
pub type Memory = spec_fn(Place) -> ScalarValue;

/// How a game computes.
pub ghost struct Machine {
    pub floats: spec_fn(FloatOp) -> F32,
    /// A value that is read as a type.
    pub convert: spec_fn(ScalarValue, ScalarType) -> ScalarValue,
    /// The type as which an instruction reads each of its arguments.
    pub types: spec_fn(u16, int) -> ScalarType,
}

/// What code does that is not computing.  A jump is to a label, and sets the time to a given one or
/// to that of the label.
pub ghost enum Event {
    /// The place of a label is passed.
    Label(Seq<char>),
    Jump { to: Seq<char>, time: Option<i32> },
    /// A jump that is made if the value is not zero.
    Test { value: ScalarValue, to: Seq<char>, time: Option<i32> },
    /// The value at a place is counted down, and the jump is made until it is zero.
    Count { place: Place, to: Seq<char>, time: Option<i32> },
    Interrupt(i32),
    /// Another instruction is carried out.
    Call { opcode: u16, args: Seq<ScalarValue> },
}

/// What code has done so far: the values that it left, and all else, one after the other.
pub ghost struct RunSt {
    pub mem: Memory,
    pub events: Seq<Event>,
}

impl RunSt {
    pub open spec fn write(self, place: Place, value: ScalarValue) -> RunSt {
        RunSt {
            mem: |p: Place|
                if p == place {
                    value
                } else {
                    (self.mem)(p)
                },
            ..self
        }
    }

    pub open spec fn noting(self, event: Event) -> RunSt {
        RunSt { events: self.events.push(event), ..self }
    }
}

/// Where two arguments of a jump lead, and the time that it sets, if not that of the label.
pub open spec fn target(label: InstrArgV, time: InstrArgV) -> Option<(Seq<char>, Option<i32>)> {
    match (label, time) {
        (InstrArgV::Label(l), InstrArgV::TimeOf(t)) => if t.value == l.value {
            Some((l.value, None))
        } else {
            None
        },
        (InstrArgV::Label(l), InstrArgV::Raw(raw)) => if raw.is_var {
            None
        } else {
            Some((l.value, Some(raw.bits as i32)))
        },
        _ => None,
    }
}

pub proof fn lemma_target(goto: GotoV)
    ensures
        target(goto_args(goto).0, goto_args(goto).1) == Some((goto.destination.value, goto.time)),
{
    if let Some(time) = goto.time {
        assert((time as u32) as i32 == time) by (bit_vector);
    }
}

impl Machine {
    /// What is read as a type has the type, and a value that has it already is kept.
    pub open spec fn wf(self) -> bool {
        forall|v: ScalarValue, ty: ScalarType|
            (#[trigger] (self.convert)(v, ty)).ty_spec() == ty && (v.ty_spec() == ty ==> (
            self.convert)(v, ty) == v)
    }

    /// What an expression depends on.
    pub open spec fn env(self, regs: RegsAndInstrs, vars: Seq<VarInfoV>, mem: Memory) -> Env {
        Env {
            vars: |v: VarV| self.var_value(regs, vars, mem, v),
            calls: |f: Seq<char>, args: Seq<Option<ScalarValue>>| None,
            floats: self.floats,
        }
    }

    /// The value of a variable where it is used.
    pub open spec fn var_value(
        self,
        regs: RegsAndInstrs,
        vars: Seq<VarInfoV>,
        mem: Memory,
        var: VarV,
    ) -> Option<ScalarValue> {
        match (var_place(regs, var), var_type_spec(regs, vars, var)) {
            (Some(p), Some(ty)) => Some((self.convert)(mem(p), ty)),
            _ => None,
        }
    }

    /// The value of an operation.
    pub open spec fn operate(self, op: BinopKind, a: ScalarValue, b: ScalarValue) -> Option<
        ScalarValue,
    > {
        run_binop(
            Env {
                vars: |v: VarV| None,
                calls: |f: Seq<char>, args: Seq<Option<ScalarValue>>| None,
                floats: self.floats,
            },
            op,
            a,
            b,
        )
    }

    /// The value of an argument that is read as a type.
    pub open spec fn arg_value(self, mem: Memory, arg: InstrArgV, ty: ScalarType) -> ScalarValue {
        match arg_place(arg, ty) {
            Some(p) => (self.convert)(mem(p), ty),
            None => match ty {
                ScalarType::Int => ScalarValue::Int(arg->Raw_0.bits as i32),
                ScalarType::Float => ScalarValue::Float(F32 { bits: arg->Raw_0.bits }),
            },
        }
    }

    /// What an operation does to its arguments; `None` if it divides by zero, or is not one that
    /// computes.
    pub open spec fn perform(
        self,
        kind: IntrinsicInstrKind,
        st: RunSt,
        args: Seq<InstrArgV>,
    ) -> Option<RunSt> {
        match kind {
            IntrinsicInstrKind::AssignOp(op, ty) => match arg_place(args[0], ty) {
                None => None,
                Some(dest) => {
                    let b = self.arg_value(st.mem, args[1], ty);
                    match op_of_assign(op) {
                        None => Some(st.write(dest, b)),
                        Some(op) => match self.operate(
                            op,
                            self.arg_value(st.mem, args[0], ty),
                            b,
                        ) {
                            Some(v) => Some(st.write(dest, v)),
                            None => None,
                        },
                    }
                },
            },
            IntrinsicInstrKind::Binop(op, ty) => match arg_place(args[0], ty) {
                None => None,
                Some(dest) => match self.operate(
                    op,
                    self.arg_value(st.mem, args[1], ty),
                    self.arg_value(st.mem, args[2], ty),
                ) {
                    Some(v) => Some(st.write(dest, v)),
                    None => None,
                },
            },
            IntrinsicInstrKind::CondJmp(op, ty) => match self.operate(
                op,
                self.arg_value(st.mem, args[0], ty),
                self.arg_value(st.mem, args[1], ty),
            ) {
                Some(value) => match target(args[2], args[3]) {
                    Some((to, time)) => Some(st.noting(Event::Test { value, to, time })),
                    None => None,
                },
                None => None,
            },
            IntrinsicInstrKind::CountJmp => match (
                arg_place(args[0], ScalarType::Int),
                target(args[1], args[2]),
            ) {
                (Some(place), Some((to, time))) => Some(
                    st.noting(Event::Count { place, to, time }),
                ),
                _ => None,
            },
            IntrinsicInstrKind::Jmp => match target(args[0], args[1]) {
                Some((to, time)) => Some(st.noting(Event::Jump { to, time })),
                None => None,
            },
            IntrinsicInstrKind::InterruptLabel => match self.arg_value(
                st.mem,
                args[0],
                ScalarType::Int,
            ) {
                ScalarValue::Int(n) => Some(st.noting(Event::Interrupt(n))),
                _ => None,
            },
            _ => None,
        }
    }

    /// What a statement does.
    pub open spec fn step(
        self,
        pairs: Seq<(IntrinsicInstrKind, u16)>,
        st: RunSt,
        stmt: LowV,
    ) -> Option<RunSt> {
        match stmt {
            LowV::Instr(instr) => match intrinsic_of(pairs, instr.opcode) {
                Some(kind) => self.perform(kind, st, instr.args),
                None => Some(
                    st.noting(
                        Event::Call {
                            opcode: instr.opcode,
                            args: Seq::new(
                                instr.args.len(),
                                |i: int|
                                    self.arg_value(
                                        st.mem,
                                        instr.args[i],
                                        (self.types)(instr.opcode, i),
                                    ),
                            ),
                        },
                    ),
                ),
            },
            LowV::Label(l) => Some(st.noting(Event::Label(l.value))),
            _ => Some(st),
        }
    }

    /// What code does, one statement after the other.
    pub open spec fn run(
        self,
        pairs: Seq<(IntrinsicInstrKind, u16)>,
        start: RunSt,
        code: Seq<LowV>,
    ) -> Option<RunSt>
        decreases code.len(),
    {
        if code.len() == 0 {
            Some(start)
        } else {
            match self.run(pairs, start, code.drop_last()) {
                Some(st) => self.step(pairs, st, code.last()),
                None => None,
            }
        }
    }
}

/// The operation whose result an operator assigns, if it is not just assigned.
pub open spec fn op_of_assign(op: AssignOpKind) -> Option<BinopKind> {
    match op {
        AssignOpKind::Assign => None,
        AssignOpKind::Add => Some(BinopKind::Add),
        AssignOpKind::Sub => Some(BinopKind::Sub),
        AssignOpKind::Mul => Some(BinopKind::Mul),
        AssignOpKind::Div => Some(BinopKind::Div),
        AssignOpKind::Rem => Some(BinopKind::Rem),
        AssignOpKind::BitOr => Some(BinopKind::BitOr),
        AssignOpKind::BitXor => Some(BinopKind::BitXor),
        AssignOpKind::BitAnd => Some(BinopKind::BitAnd),
    }
}

/// The place that an argument names.
pub open spec fn arg_place(arg: InstrArgV, ty: ScalarType) -> Option<Place> {
    match arg {
        InstrArgV::Raw(raw) => if raw.is_var {
            match ty {
                ScalarType::Int => Some(Place::Reg(raw.bits as i32)),
                ScalarType::Float => Some(
                    Place::Reg((F32 { bits: raw.bits }).to_i32_spec() as i32),
                ),
            }
        } else {
            None
        },
        InstrArgV::Local(id) => Some(Place::Temp(id)),
        _ => None,
    }
}

/// The place of a variable.
pub open spec fn var_place(regs: RegsAndInstrs, var: VarV) -> Option<Place> {
    match regs.reg_id_spec(var) {
        Some(reg) => Some(Place::Reg(reg)),
        None => match var {
            VarV::Local { var_id, .. } => Some(Place::Temp(var_id)),
            _ => None,
        },
    }
}

// =============================================================================
// Expressions

/// Whether a variable has a place, and its register a number that is exact as a float.
pub open spec fn var_ok(regs: RegsAndInstrs, vars: Seq<VarInfoV>, var: VarV) -> bool {
    match var_place(regs, var) {
        Some(Place::Reg(reg)) => -0x100_0000 <= reg <= 0x100_0000,
        Some(Place::Temp(id)) => id.0 < vars.len(),
        None => false,
    }
}

/// Whether an expression is made of literals, variables and operators on two operands.
pub open spec fn expr_ok(regs: RegsAndInstrs, vars: Seq<VarInfoV>, e: Sp<ExprV>) -> bool
    decreases e,
{
    match e.value {
        ExprV::LitInt { .. } => true,
        ExprV::LitFloat { .. } => true,
        ExprV::Var(var) => var_ok(regs, vars, var.value),
        ExprV::Binop(a, _, b) => expr_ok(regs, vars, *a) && expr_ok(regs, vars, *b),
        _ => false,
    }
}

/// The type of an expression whose parts fit together, and whose value has the type of its parts.
pub open spec fn type_of(regs: RegsAndInstrs, vars: Seq<VarInfoV>, e: Sp<ExprV>) -> Option<
    ScalarType,
>
    decreases e,
{
    match e.value {
        ExprV::LitInt { .. } => Some(ScalarType::Int),
        ExprV::LitFloat { .. } => Some(ScalarType::Float),
        ExprV::Var(var) => var_type_spec(regs, vars, var.value),
        ExprV::Binop(a, op, b) => match (type_of(regs, vars, *a), type_of(regs, vars, *b)) {
            (Some(x), Some(y)) => if x == y && (op.value.is_arithmetic_spec() || x is Int) {
                Some(x)
            } else {
                None
            },
            _ => None,
        },
        _ => None,
    }
}

/// Whether no other variable of an expression is kept where a given one is.
pub open spec fn apart(regs: RegsAndInstrs, e: Sp<ExprV>, dest: VarV) -> bool
    decreases e,
{
    match e.value {
        ExprV::Var(var) => var_place(regs, var.value) != var_place(regs, dest)
            || dest.same_upto_ty(var.value),
        ExprV::Binop(a, _, b) => apart(regs, *a, dest) && apart(regs, *b, dest),
        _ => true,
    }
}

/// Whether variables were only added.
pub open spec fn extends(vars: Seq<VarInfoV>, more: Seq<VarInfoV>) -> bool {
    &&& vars.len() <= more.len()
    &&& forall|i: int| 0 <= i < vars.len() ==> more[i] == vars[i]
}

/// Whether only a given place and temporaries from the `n`-th on have other values.
pub open spec fn changed_only(before: Memory, after: Memory, dest: Option<Place>, n: nat) -> bool {
    forall|p: Place|
        Some(p) != dest && !(p matches Place::Temp(id) && id.0 >= n) ==> #[trigger] after(p)
            == before(p)
}

/// Whether no two operations have one opcode.
pub open spec fn opcodes_unique(pairs: Seq<(IntrinsicInstrKind, u16)>) -> bool {
    forall|i: int, j: int|
        0 <= i < j < pairs.len() ==> (#[trigger] pairs[i]).1 != (#[trigger] pairs[j]).1
}

pub proof fn lemma_unique_opcode(pairs: Seq<(IntrinsicInstrKind, u16)>, kind: IntrinsicInstrKind)
    requires
        opcodes_unique(pairs),
    ensures
        opcode_of(pairs, kind) matches Some(opcode) ==> intrinsic_of(pairs, opcode) == Some(kind)
            && exists|i: int| 0 <= i < pairs.len() && (#[trigger] pairs[i]).1 == opcode,
    decreases pairs.len(),
{
    if pairs.len() > 0 {
        let init = pairs.drop_last();
        assert(opcodes_unique(init)) by {
            assert forall|i: int, j: int| 0 <= i < j < init.len() implies (#[trigger] init[i]).1
                != (#[trigger] init[j]).1 by {
                assert(pairs[i] == init[i] && pairs[j] == init[j]);
            }
        }
        lemma_unique_opcode(init, kind);
        if pairs.last().0 == kind {
            assert(pairs[pairs.len() - 1].1 == pairs.last().1);
        } else if let Some(opcode) = opcode_of(init, kind) {
            let i = choose|i: int| 0 <= i < init.len() && (#[trigger] init[i]).1 == opcode;
            assert(pairs[i].1 == opcode);
            assert(pairs[pairs.len() - 1].1 != opcode);
        }
    }
}

proof fn lemma_reg_arg(reg: i32, ty: ScalarType)
    requires
        -0x100_0000 <= reg <= 0x100_0000,
    ensures
        arg_place(InstrArgV::Raw(RawArg::from_reg_spec(reg, ty)), ty) == Some(Place::Reg(reg)),
{
    match ty {
        ScalarType::Int => {
            assert((reg as u32) as i32 == reg) by (bit_vector);
        },
        ScalarType::Float => {
            law_int_round_trip(reg as int);
        },
    }
}

/// A variable as an argument names the place of the variable.
pub proof fn lemma_var_arg(regs: RegsAndInstrs, vars: Seq<VarInfoV>, var: Sp<VarV>)
    requires
        var_ok(regs, vars, var.value),
    ensures
        lower_var(regs, vars, var) matches Ok((arg, ty)) ==> arg_place(arg, ty) == var_place(
            regs,
            var.value,
        ) && var_type_spec(regs, vars, var.value) == Some(ty),
{
    if let Ok((_, ty)) = lower_var(regs, vars, var) {
        if let Some(reg) = regs.reg_id_spec(var.value) {
            lemma_reg_arg(reg, ty);
        }
    }
}

/// A literal or variable as an argument has the value of the expression.
pub proof fn lemma_simple_value(
    machine: Machine,
    regs: RegsAndInstrs,
    vars: Seq<VarInfoV>,
    mem: Memory,
    e: Sp<ExprV>,
)
    requires
        expr_ok(regs, vars, e),
    ensures
        simple_arg(regs, vars, e) matches Ok(Some((arg, ty))) ==> run_expr(
            machine.env(regs, vars, mem),
            e,
        ) == Some(machine.arg_value(mem, arg, ty)) && type_of(regs, vars, e) == Some(ty),
        simple_arg(regs, vars, e) matches Ok(None) ==> e.value is Binop,
{
    match e.value {
        ExprV::LitInt { value, .. } => {
            assert((value as u32) as i32 == value) by (bit_vector);
        },
        ExprV::Var(var) => lemma_var_arg(regs, vars, var),
        _ => {},
    }
}

/// The value of an expression has the type of the expression.
proof fn lemma_value_type(
    machine: Machine,
    regs: RegsAndInstrs,
    vars: Seq<VarInfoV>,
    mem: Memory,
    e: Sp<ExprV>,
)
    requires
        machine.wf(),
        expr_ok(regs, vars, e),
    ensures
        (type_of(regs, vars, e), run_expr(machine.env(regs, vars, mem), e)) matches (
            Some(ty),
            Some(v),
        ) ==> v.ty_spec() == ty,
        type_of(regs, vars, e) matches Some(ty) ==> shallow_type(regs, vars, e) == Ok::<
            ScalarType,
            ErrorV,
        >(ty),
    decreases e,
{
    if let ExprV::Binop(a, op, b) = e.value {
        lemma_value_type(machine, regs, vars, mem, *a);
        lemma_value_type(machine, regs, vars, mem, *b);
    }
}

/// An expression keeps its value and type where none of its variables has changed.
pub proof fn lemma_frame(
    machine: Machine,
    regs: RegsAndInstrs,
    vars: Seq<VarInfoV>,
    more: Seq<VarInfoV>,
    before: Memory,
    after: Memory,
    dest: Option<VarV>,
    e: Sp<ExprV>,
)
    requires
        regs.reg_map@.len() <= vars.len(),
        expr_ok(regs, vars, e),
        extends(vars, more),
        match dest {
            None => changed_only(before, after, None, vars.len()),
            Some(var) => changed_only(before, after, var_place(regs, var), vars.len())
                && !uses_var(e, var) && apart(regs, e, var),
        },
    ensures
        expr_ok(regs, more, e),
        type_of(regs, more, e) == type_of(regs, vars, e),
        run_expr(machine.env(regs, more, after), e) == run_expr(
            machine.env(regs, vars, before),
            e,
        ),
    decreases e,
{
    match e.value {
        ExprV::Binop(a, _, b) => {
            lemma_frame(machine, regs, vars, more, before, after, dest, *a);
            lemma_frame(machine, regs, vars, more, before, after, dest, *b);
        },
        ExprV::Var(var) => {
            let p = var_place(regs, var.value)->0;
            assert(after(p) == before(p));
            assert(var_type_spec(regs, more, var.value) == var_type_spec(regs, vars, var.value));
        },
        _ => {},
    }
}

/// The variables of an expression are kept elsewhere than a new temporary.
proof fn lemma_apart_from_new(regs: RegsAndInstrs, vars: Seq<VarInfoV>, e: Sp<ExprV>, temp: VarV)
    requires
        expr_ok(regs, vars, e),
        var_place(regs, temp) matches Some(Place::Temp(id)) && id.0 >= vars.len(),
    ensures
        apart(regs, e, temp),
    decreases e,
{
    if let ExprV::Binop(a, _, b) = e.value {
        lemma_apart_from_new(regs, vars, *a, temp);
        lemma_apart_from_new(regs, vars, *b, temp);
    }
}

// =============================================================================
// Statements

/// Whether code that was lowered so far has led to a state.
pub open spec fn reached(
    machine: Machine,
    cx: LowerCx,
    start: RunSt,
    st: LowerSt,
    now: RunSt,
) -> bool {
    &&& machine.wf()
    &&& opcodes_unique(cx.pairs)
    &&& cx.regs.reg_map@.len() <= st.vars.len()
    &&& machine.run(cx.pairs, start, st.out) == Some(now)
}

pub proof fn lemma_push(machine: Machine, cx: LowerCx, start: RunSt, st: LowerSt, now: RunSt, s: LowV)
    requires
        reached(machine, cx, start, st, now),
    ensures
        machine.run(cx.pairs, start, st.push(s).out) == machine.step(cx.pairs, now, s),
{
    assert(st.push(s).out.drop_last() =~= st.out);
}

pub proof fn lemma_emit(
    machine: Machine,
    cx: LowerCx,
    start: RunSt,
    st: LowerSt,
    now: RunSt,
    time: i32,
    kind: IntrinsicInstrKind,
    span: Span,
    args: Seq<InstrArgV>,
)
    requires
        reached(machine, cx, start, st, now),
        emit(cx, st, time, kind, span, args).1 is None,
    ensures
        ({
            let st2 = emit(cx, st, time, kind, span, args).0;
            st2.vars == st.vars && machine.run(cx.pairs, start, st2.out) == machine.perform(
                kind,
                now,
                args,
            )
        }),
{
    lemma_unique_opcode(cx.pairs, kind);
    let opcode = opcode_of(cx.pairs, kind)->0;
    lemma_push(machine, cx, start, st, now, LowV::Instr(InstrV { time, opcode, args }));
}

/// The value that an assignment gives to its variable.
pub open spec fn assigned_value(
    machine: Machine,
    regs: RegsAndInstrs,
    vars: Seq<VarInfoV>,
    mem: Memory,
    var: VarV,
    op: AssignOpKind,
    rhs: Sp<ExprV>,
) -> Option<ScalarValue> {
    match run_expr(machine.env(regs, vars, mem), rhs) {
        None => None,
        Some(b) => match op_of_assign(op) {
            None => Some(b),
            Some(op) => match machine.var_value(regs, vars, mem, var) {
                Some(a) => machine.operate(op, a, b),
                None => None,
            },
        },
    }
}

/// Whether code has changed a variable to a value, and else only new temporaries.
pub open spec fn assigned(
    machine: Machine,
    cx: LowerCx,
    start: RunSt,
    st: LowerSt,
    now: RunSt,
    st2: LowerSt,
    after: RunSt,
    var: VarV,
    value: ScalarValue,
) -> bool {
    &&& reached(machine, cx, start, st2, after)
    &&& extends(st.vars, st2.vars)
    &&& after.events == now.events
    &&& (after.mem)(var_place(cx.regs, var)->0) == value
    &&& changed_only(now.mem, after.mem, var_place(cx.regs, var), st.vars.len())
}

/// Whether a new temporary holds the value of an expression.
pub open spec fn holds(
    machine: Machine,
    cx: LowerCx,
    start: RunSt,
    st: LowerSt,
    now: RunSt,
    st2: LowerSt,
    after: RunSt,
    temp: Sp<VarV>,
    ty: ScalarType,
    value: ScalarValue,
) -> bool {
    &&& reached(machine, cx, start, st2, after)
    &&& extends(st.vars, st2.vars)
    &&& after.events == now.events
    &&& changed_only(now.mem, after.mem, None, st.vars.len())
    &&& var_place(cx.regs, temp.value) == Some(Place::Temp(VarId(st.vars.len() as usize)))
    &&& expr_ok(cx.regs, st2.vars, var_expr(temp))
    &&& type_of(cx.regs, st2.vars, var_expr(temp)) == Some(ty)
    &&& run_expr(machine.env(cx.regs, st2.vars, after.mem), var_expr(temp)) == Some(value)
}

proof fn lemma_release(
    machine: Machine,
    cx: LowerCx,
    start: RunSt,
    st: LowerSt,
    now: RunSt,
    id: VarId,
)
    requires
        reached(machine, cx, start, st, now),
    ensures
        reached(machine, cx, start, release((st, None), id).0, now),
{
    lemma_push(machine, cx, start, st, now, LowV::RegFree { var: id });
}

/// An assignment that is one instruction.
proof fn lemma_simple_assign(
    machine: Machine,
    cx: LowerCx,
    start: RunSt,
    st: LowerSt,
    now: RunSt,
    span: Span,
    time: i32,
    var: Sp<VarV>,
    op: Sp<AssignOpKind>,
    rhs: Sp<ExprV>,
    value: ScalarValue,
) -> (after: RunSt)
    requires
        reached(machine, cx, start, st, now),
        var_ok(cx.regs, st.vars, var.value),
        expr_ok(cx.regs, st.vars, rhs),
        rhs.value !is Binop,
        assigned_value(machine, cx.regs, st.vars, now.mem, var.value, op.value, rhs) == Some(value),
        assign_op(cx, st, span, time, var, op, rhs).1 is None,
    ensures
        assigned(
            machine,
            cx,
            start,
            st,
            now,
            assign_op(cx, st, span, time, var, op, rhs).0,
            after,
            var.value,
            value,
        ),
{
    lemma_var_arg(cx.regs, st.vars, var);
    lemma_simple_value(machine, cx.regs, st.vars, now.mem, rhs);
    let (arg_var, ty) = lower_var(cx.regs, st.vars, var)->Ok_0;
    let (arg_rhs, ty_rhs) = simple_arg(cx.regs, st.vars, rhs)->Ok_0->0;
    let kind = IntrinsicInstrKind::AssignOp(op.value, ty);
    let args = seq![arg_var, arg_rhs];
    lemma_emit(machine, cx, start, st, now, time, kind, span, args);
    let dest = var_place(cx.regs, var.value)->0;
    assert(arg_place(args[0], ty) == Some(dest));
    assert(machine.arg_value(now.mem, args[1], ty) == run_expr(
        machine.env(cx.regs, st.vars, now.mem),
        rhs,
    )->0);
    let after = now.write(dest, value);
    assert(machine.perform(kind, now, args) == Some(after));
    after
}

/// An operation that is one instruction.
proof fn lemma_simple_binop(
    machine: Machine,
    cx: LowerCx,
    start: RunSt,
    st: LowerSt,
    now: RunSt,
    span: Span,
    time: i32,
    var: Sp<VarV>,
    eq_span: Span,
    rhs_span: Span,
    a: Sp<ExprV>,
    op: Sp<BinopKind>,
    b: Sp<ExprV>,
    x: ScalarValue,
    y: ScalarValue,
    value: ScalarValue,
) -> (after: RunSt)
    requires
        reached(machine, cx, start, st, now),
        var_ok(cx.regs, st.vars, var.value),
        expr_ok(cx.regs, st.vars, a),
        expr_ok(cx.regs, st.vars, b),
        a.value !is Binop,
        b.value !is Binop,
        run_expr(machine.env(cx.regs, st.vars, now.mem), a) == Some(x),
        run_expr(machine.env(cx.regs, st.vars, now.mem), b) == Some(y),
        machine.operate(op.value, x, y) == Some(value),
        direct_binop(cx, st, span, time, var, eq_span, rhs_span, a, op, b).1 is None,
    ensures
        assigned(
            machine,
            cx,
            start,
            st,
            now,
            direct_binop(cx, st, span, time, var, eq_span, rhs_span, a, op, b).0,
            after,
            var.value,
            value,
        ),
{
    lemma_var_arg(cx.regs, st.vars, var);
    lemma_simple_value(machine, cx.regs, st.vars, now.mem, a);
    lemma_simple_value(machine, cx.regs, st.vars, now.mem, b);
    let (arg_var, ty) = lower_var(cx.regs, st.vars, var)->Ok_0;
    let (arg_a, ty_a) = simple_arg(cx.regs, st.vars, a)->Ok_0->0;
    let (arg_b, ty_b) = simple_arg(cx.regs, st.vars, b)->Ok_0->0;
    let kind = IntrinsicInstrKind::Binop(op.value, ty);
    let args = seq![arg_var, arg_a, arg_b];
    lemma_emit(machine, cx, start, st, now, time, kind, span, args);
    let dest = var_place(cx.regs, var.value)->0;
    assert(arg_place(args[0], ty) == Some(dest));
    assert(machine.arg_value(now.mem, args[1], ty) == x);
    assert(machine.arg_value(now.mem, args[2], ty) == y);
    let after = now.write(dest, value);
    assert(machine.perform(kind, now, args) == Some(after));
    after
}

/// A variable is what was assigned to it.
proof fn lemma_assigned_var(
    machine: Machine,
    cx: LowerCx,
    start: RunSt,
    st: LowerSt,
    now: RunSt,
    st2: LowerSt,
    after: RunSt,
    var: Sp<VarV>,
    ty: ScalarType,
    value: ScalarValue,
)
    requires
        cx.regs.reg_map@.len() <= st.vars.len(),
        assigned(machine, cx, start, st, now, st2, after, var.value, value),
        var_ok(cx.regs, st.vars, var.value),
        var_type_spec(cx.regs, st.vars, var.value) == Some(ty),
        value.ty_spec() == ty,
    ensures
        var_ok(cx.regs, st2.vars, var.value),
        var_type_spec(cx.regs, st2.vars, var.value) == Some(ty),
        expr_ok(cx.regs, st2.vars, var_expr(var)),
        type_of(cx.regs, st2.vars, var_expr(var)) == Some(ty),
        run_expr(machine.env(cx.regs, st2.vars, after.mem), var_expr(var)) == Some(value),
        apart(cx.regs, var_expr(var), var.value),
{
    assert(machine.env(cx.regs, st2.vars, after.mem).vars == (|v: VarV|
        machine.var_value(cx.regs, st2.vars, after.mem, v)));
}

/// `a = <B>;` or `a *= <B>;`
pub proof fn lemma_assign(
    machine: Machine,
    cx: LowerCx,
    start: RunSt,
    st: LowerSt,
    now: RunSt,
    span: Span,
    time: i32,
    var: Sp<VarV>,
    op: Sp<AssignOpKind>,
    rhs: Sp<ExprV>,
    value: ScalarValue,
) -> (after: RunSt)
    requires
        reached(machine, cx, start, st, now),
        var_ok(cx.regs, st.vars, var.value),
        expr_ok(cx.regs, st.vars, rhs),
        apart(cx.regs, rhs, var.value),
        type_of(cx.regs, st.vars, rhs) is Some,
        type_of(cx.regs, st.vars, rhs) == var_type_spec(cx.regs, st.vars, var.value),
        assigned_value(machine, cx.regs, st.vars, now.mem, var.value, op.value, rhs) == Some(value),
        assign_op(cx, st, span, time, var, op, rhs).1 is None,
    ensures
        assigned(
            machine,
            cx,
            start,
            st,
            now,
            assign_op(cx, st, span, time, var, op, rhs).0,
            after,
            var.value,
            value,
        ),
    decreases
            weight(rhs),
            if op.value is Assign {
                0nat
            } else {
                2nat
            },
{
    if rhs.value !is Binop {
        lemma_simple_assign(machine, cx, start, st, now, span, time, var, op, rhs, value)
    } else if op.value is Assign {
        let a = *rhs.value->Binop_0;
        let b = *rhs.value->Binop_2;
        let env = machine.env(cx.regs, st.vars, now.mem);
        lemma_direct(
            machine,
            cx,
            start,
            st,
            now,
            span,
            time,
            var,
            op.span,
            rhs.span,
            a,
            rhs.value->Binop_1,
            b,
            type_of(cx.regs, st.vars, a)->0,
            run_expr(env, a)->0,
            run_expr(env, b)->0,
            value,
        )
    } else {
        let ty = type_of(cx.regs, st.vars, rhs)->0;
        let y = run_expr(machine.env(cx.regs, st.vars, now.mem), rhs)->0;
        let (st1, tmp) = define_temp(cx, st, time, ty, rhs);
        let id = tmp->Ok_0;
        let t = temp_var(rhs.span, id);
        let mid = lemma_temp(machine, cx, start, st, now, time, ty, rhs, y);
        lemma_frame(
            machine,
            cx.regs,
            st.vars,
            st1.vars,
            now.mem,
            mid.mem,
            None,
            var_expr(var),
        );
        let st2 = assign_op(cx, st1, span, time, var, op, var_expr(t)).0;
        let after = lemma_simple_assign(
            machine,
            cx,
            start,
            st1,
            mid,
            span,
            time,
            var,
            op,
            var_expr(t),
            value,
        );
        lemma_release(machine, cx, start, st2, after, id);
        after
    }
}

/// A new temporary for an expression.
proof fn lemma_temp(
    machine: Machine,
    cx: LowerCx,
    start: RunSt,
    st: LowerSt,
    now: RunSt,
    time: i32,
    ty: ScalarType,
    e: Sp<ExprV>,
    value: ScalarValue,
) -> (after: RunSt)
    requires
        reached(machine, cx, start, st, now),
        expr_ok(cx.regs, st.vars, e),
        type_of(cx.regs, st.vars, e) == Some(ty),
        run_expr(machine.env(cx.regs, st.vars, now.mem), e) == Some(value),
        define_temp(cx, st, time, ty, e).1 is Ok,
    ensures
        define_temp(cx, st, time, ty, e).1->Ok_0.0 == st.vars.len(),
        holds(
            machine,
            cx,
            start,
            st,
            now,
            define_temp(cx, st, time, ty, e).0,
            after,
            temp_var(e.span, define_temp(cx, st, time, ty, e).1->Ok_0),
            ty,
            value,
        ),
    decreases weight(e), 1nat,
{
    let (st1, tmp) = allocate(st, e.span, ty);
    let id = tmp->Ok_0;
    let t = temp_var(e.span, id);
    let assign = Spanned { span: e.span, value: AssignOpKind::Assign };
    lemma_push(machine, cx, start, st, now, LowV::RegAlloc { var: id, cause: e.span });
    lemma_frame(machine, cx.regs, st.vars, st1.vars, now.mem, now.mem, None, e);
    lemma_apart_from_new(cx.regs, st.vars, e, t.value);
    let after = lemma_assign(
        machine,
        cx,
        start,
        st1,
        now,
        e.span,
        time,
        t,
        assign,
        e,
        value,
    );
    let st2 = assign_op(cx, st1, e.span, time, t, assign, e).0;
    lemma_value_type(machine, cx.regs, st.vars, now.mem, e);
    lemma_assigned_var(machine, cx, start, st1, now, st2, after, t, ty, value);
    after
}

/// `a = <B> * <C>;`
proof fn lemma_direct(
    machine: Machine,
    cx: LowerCx,
    start: RunSt,
    st: LowerSt,
    now: RunSt,
    span: Span,
    time: i32,
    var: Sp<VarV>,
    eq_span: Span,
    rhs_span: Span,
    a: Sp<ExprV>,
    op: Sp<BinopKind>,
    b: Sp<ExprV>,
    ty: ScalarType,
    x: ScalarValue,
    y: ScalarValue,
    value: ScalarValue,
) -> (after: RunSt)
    requires
        reached(machine, cx, start, st, now),
        var_ok(cx.regs, st.vars, var.value),
        expr_ok(cx.regs, st.vars, a),
        expr_ok(cx.regs, st.vars, b),
        apart(cx.regs, a, var.value),
        apart(cx.regs, b, var.value),
        var_type_spec(cx.regs, st.vars, var.value) == Some(ty),
        type_of(cx.regs, st.vars, a) == Some(ty),
        type_of(cx.regs, st.vars, b) == Some(ty),
        run_expr(machine.env(cx.regs, st.vars, now.mem), a) == Some(x),
        run_expr(machine.env(cx.regs, st.vars, now.mem), b) == Some(y),
        machine.operate(op.value, x, y) == Some(value),
        direct_binop(cx, st, span, time, var, eq_span, rhs_span, a, op, b).1 is None,
    ensures
        assigned(
            machine,
            cx,
            start,
            st,
            now,
            direct_binop(cx, st, span, time, var, eq_span, rhs_span, a, op, b).0,
            after,
            var.value,
            value,
        ),
    decreases weight(a) + weight(b), 3nat,
{
    lemma_simple_value(machine, cx.regs, st.vars, now.mem, a);
    lemma_simple_value(machine, cx.regs, st.vars, now.mem, b);
    if a.value !is Binop && b.value !is Binop {
        lemma_simple_binop(
            machine,
            cx,
            start,
            st,
            now,
            span,
            time,
            var,
            eq_span,
            rhs_span,
            a,
            op,
            b,
            x,
            y,
            value,
        )
    } else {
        let first = a.value is Binop;
        let part = if first {
            a
        } else {
            b
        };
        let other = if first {
            b
        } else {
            a
        };
        let v = if first {
            x
        } else {
            y
        };
        lemma_value_type(machine, cx.regs, st.vars, now.mem, part);
        if uses_var(other, var.value) {
            let (st1, tmp) = define_temp(cx, st, time, ty, part);
            let id = tmp->Ok_0;
            let t = temp_var(part.span, id);
            let mid = lemma_temp(machine, cx, start, st, now, time, ty, part, v);
            lemma_frame(machine, cx.regs, st.vars, st1.vars, now.mem, mid.mem, None, other);
            lemma_frame(
                machine,
                cx.regs,
                st.vars,
                st1.vars,
                now.mem,
                mid.mem,
                None,
                var_expr(var),
            );
            let a2 = if first {
                var_expr(t)
            } else {
                a
            };
            let b2 = if first {
                b
            } else {
                var_expr(t)
            };
            let after = lemma_direct(
                machine,
                cx,
                start,
                st1,
                mid,
                span,
                time,
                var,
                eq_span,
                rhs_span,
                a2,
                op,
                b2,
                ty,
                x,
                y,
                value,
            );
            let st2 = direct_binop(cx, st1, span, time, var, eq_span, rhs_span, a2, op, b2).0;
            lemma_release(machine, cx, start, st2, after, id);
            after
        } else {
            let assign = Spanned { span: part.span, value: AssignOpKind::Assign };
            let mid = lemma_assign(
                machine,
                cx,
                start,
                st,
                now,
                part.span,
                time,
                var,
                assign,
                part,
                v,
            );
            let st1 = assign_op(cx, st, part.span, time, var, assign, part).0;
            lemma_assigned_var(machine, cx, start, st, now, st1, mid, var, ty, v);
            lemma_frame(
                machine,
                cx.regs,
                st.vars,
                st1.vars,
                now.mem,
                mid.mem,
                Some(var.value),
                other,
            );
            let a2 = if first {
                var_expr(var)
            } else {
                a
            };
            let b2 = if first {
                b
            } else {
                var_expr(var)
            };
            lemma_direct(
                machine,
                cx,
                start,
                st1,
                mid,
                span,
                time,
                var,
                eq_span,
                rhs_span,
                a2,
                op,
                b2,
                ty,
                x,
                y,
                value,
            )
        }
    }
}

/// Whether code has compared two values, and changed only new temporaries.
pub open spec fn compared(
    machine: Machine,
    cx: LowerCx,
    start: RunSt,
    st: LowerSt,
    now: RunSt,
    st2: LowerSt,
    after: RunSt,
    value: ScalarValue,
    goto: GotoV,
) -> bool {
    &&& reached(machine, cx, start, st2, after)
    &&& extends(st.vars, st2.vars)
    &&& after.events == now.events.push(
        Event::Test { value, to: goto.destination.value, time: goto.time },
    )
    &&& changed_only(now.mem, after.mem, None, st.vars.len())
}

/// A comparison that is one instruction.
proof fn lemma_simple_cond(
    machine: Machine,
    cx: LowerCx,
    start: RunSt,
    st: LowerSt,
    now: RunSt,
    time: i32,
    a: Sp<ExprV>,
    op: Sp<BinopKind>,
    b: Sp<ExprV>,
    goto: GotoV,
    x: ScalarValue,
    y: ScalarValue,
    value: ScalarValue,
) -> (after: RunSt)
    requires
        reached(machine, cx, start, st, now),
        expr_ok(cx.regs, st.vars, a),
        expr_ok(cx.regs, st.vars, b),
        a.value !is Binop,
        b.value !is Binop,
        run_expr(machine.env(cx.regs, st.vars, now.mem), a) == Some(x),
        run_expr(machine.env(cx.regs, st.vars, now.mem), b) == Some(y),
        machine.operate(op.value, x, y) == Some(value),
        cond_jump_binop(cx, st, time, a, op, b, goto).1 is None,
    ensures
        compared(
            machine,
            cx,
            start,
            st,
            now,
            cond_jump_binop(cx, st, time, a, op, b, goto).0,
            after,
            value,
            goto,
        ),
{
    lemma_simple_value(machine, cx.regs, st.vars, now.mem, a);
    lemma_simple_value(machine, cx.regs, st.vars, now.mem, b);
    let (arg_a, ty) = simple_arg(cx.regs, st.vars, a)->Ok_0->0;
    let (arg_b, ty_b) = simple_arg(cx.regs, st.vars, b)->Ok_0->0;
    let kind = IntrinsicInstrKind::CondJmp(op.value, ty);
    let args = seq![arg_a, arg_b, goto_args(goto).0, goto_args(goto).1];
    lemma_emit(machine, cx, start, st, now, time, kind, op.span, args);
    assert(machine.arg_value(now.mem, args[0], ty) == x);
    assert(machine.arg_value(now.mem, args[1], ty) == y);
    lemma_target(goto);
    let after = now.noting(Event::Test { value, to: goto.destination.value, time: goto.time });
    assert(machine.perform(kind, now, args) == Some(after));
    after
}

/// `if (<A> != <B>) goto label;`
pub proof fn lemma_cond(
    machine: Machine,
    cx: LowerCx,
    start: RunSt,
    st: LowerSt,
    now: RunSt,
    time: i32,
    a: Sp<ExprV>,
    op: Sp<BinopKind>,
    b: Sp<ExprV>,
    goto: GotoV,
    ty: ScalarType,
    x: ScalarValue,
    y: ScalarValue,
    value: ScalarValue,
) -> (after: RunSt)
    requires
        reached(machine, cx, start, st, now),
        expr_ok(cx.regs, st.vars, a),
        expr_ok(cx.regs, st.vars, b),
        type_of(cx.regs, st.vars, a) == Some(ty),
        type_of(cx.regs, st.vars, b) == Some(ty),
        run_expr(machine.env(cx.regs, st.vars, now.mem), a) == Some(x),
        run_expr(machine.env(cx.regs, st.vars, now.mem), b) == Some(y),
        machine.operate(op.value, x, y) == Some(value),
        cond_jump_binop(cx, st, time, a, op, b, goto).1 is None,
    ensures
        compared(
            machine,
            cx,
            start,
            st,
            now,
            cond_jump_binop(cx, st, time, a, op, b, goto).0,
            after,
            value,
            goto,
        ),
    decreases weight(a) + weight(b),
{
    lemma_simple_value(machine, cx.regs, st.vars, now.mem, a);
    lemma_simple_value(machine, cx.regs, st.vars, now.mem, b);
    if a.value !is Binop && b.value !is Binop {
        lemma_simple_cond(machine, cx, start, st, now, time, a, op, b, goto, x, y, value)
    } else {
        let first = a.value is Binop;
        let part = if first {
            a
        } else {
            b
        };
        let other = if first {
            b
        } else {
            a
        };
        let v = if first {
            x
        } else {
            y
        };
        lemma_value_type(machine, cx.regs, st.vars, now.mem, part);
        let (st1, tmp) = define_temp(cx, st, time, ty, part);
        let id = tmp->Ok_0;
        let t = var_expr(temp_var(part.span, id));
        let mid = lemma_temp(machine, cx, start, st, now, time, ty, part, v);
        lemma_frame(machine, cx.regs, st.vars, st1.vars, now.mem, mid.mem, None, other);
        let a2 = if first {
            t
        } else {
            a
        };
        let b2 = if first {
            b
        } else {
            t
        };
        let after = lemma_cond(
            machine,
            cx,
            start,
            st1,
            mid,
            time,
            a2,
            op,
            b2,
            goto,
            ty,
            x,
            y,
            value,
        );
        let st2 = cond_jump_binop(cx, st1, time, a2, op, b2, goto).0;
        lemma_release(machine, cx, start, st2, after, id);
        after
    }
}

/// Whether an argument is the value of an expression, and stays so while only new temporaries
/// change.
pub open spec fn passes(
    machine: Machine,
    env: Env,
    vars: Seq<VarInfoV>,
    mem: Memory,
    arg: InstrArgV,
    ty: ScalarType,
    e: Sp<ExprV>,
) -> bool {
    &&& run_expr(env, e) == Some(machine.arg_value(mem, arg, ty))
    &&& arg_place(arg, ty) matches Some(Place::Temp(id)) ==> id.0 < vars.len()
}

/// `func(<ARG1>, <ARG2>, <...>);`
pub proof fn lemma_args(
    machine: Machine,
    cx: LowerCx,
    start: RunSt,
    st: LowerSt,
    now: RunSt,
    time: i32,
    name: Sp<Seq<char>>,
    encodings: Seq<ArgEncoding>,
    args: Seq<Sp<ExprV>>,
    n: nat,
) -> (after: RunSt)
    requires
        reached(machine, cx, start, st, now),
        n <= args.len(),
        forall|i: int|
            0 <= i < args.len() ==> {
                &&& expr_ok(cx.regs, st.vars, #[trigger] args[i])
                &&& type_of(cx.regs, st.vars, args[i]) is Some
                &&& run_expr(machine.env(cx.regs, st.vars, now.mem), args[i]) is Some
            },
        lower_args(cx, st, time, name, encodings, args, n).errors.len() == 0,
    ensures
        ({
            let low = lower_args(cx, st, time, name, encodings, args, n);
            &&& reached(machine, cx, start, low.st, after)
            &&& extends(st.vars, low.st.vars)
            &&& after.events == now.events
            &&& changed_only(now.mem, after.mem, None, st.vars.len())
            &&& low.args.len() == n
            &&& forall|i: int|
                0 <= i < n ==> passes(
                    machine,
                    machine.env(cx.regs, st.vars, now.mem),
                    low.st.vars,
                    after.mem,
                    #[trigger] low.args[i],
                    encodings[i].expected_type_spec(),
                    args[i],
                )
        }),
    decreases n,
{
    if n == 0 {
        now
    } else {
        let before = lower_args(cx, st, time, name, encodings, args, (n - 1) as nat);
        let low = lower_args(cx, st, time, name, encodings, args, n);
        let env = machine.env(cx.regs, st.vars, now.mem);
        assert(before.errors.len() == 0);
        let mid = lemma_args(
            machine,
            cx,
            start,
            st,
            now,
            time,
            name,
            encodings,
            args,
            (n - 1) as nat,
        );
        let e = args[n - 1];
        let vars = before.st.vars;
        lemma_frame(machine, cx.regs, st.vars, vars, now.mem, mid.mem, None, e);
        lemma_simple_value(machine, cx.regs, vars, mid.mem, e);
        if e.value !is Binop {
            mid
        } else {
            let ty = type_of(cx.regs, vars, e)->0;
            lemma_value_type(machine, cx.regs, vars, mid.mem, e);
            let v = run_expr(env, e)->0;
            let after = lemma_temp(machine, cx, start, before.st, mid, time, ty, e, v);
            assert forall|i: int| 0 <= i < n implies passes(
                machine,
                env,
                low.st.vars,
                after.mem,
                #[trigger] low.args[i],
                encodings[i].expected_type_spec(),
                args[i],
            ) by {
                if i < n - 1 {
                    let ty = encodings[i].expected_type_spec();
                    assert(low.args[i] == before.args[i]);
                    if let Some(p) = arg_place(before.args[i], ty) {
                        assert((after.mem)(p) == (mid.mem)(p));
                    }
                }
            }
            after
        }
    }
}

/// Lowered code passes what the call says: where the arguments are well typed and their values
/// defined, the code in front of the instruction changes nothing but temporaries of its own, and
/// the arguments of the instruction then are the values of the expressions.
pub proof fn law_call_passes_values(
    machine: Machine,
    cx: LowerCx,
    vars: Seq<VarInfoV>,
    start: RunSt,
    time: i32,
    name: Sp<Seq<char>>,
    encodings: Seq<ArgEncoding>,
    args: Seq<Sp<ExprV>>,
)
    requires
        machine.wf(),
        opcodes_unique(cx.pairs),
        cx.regs.reg_map@.len() <= vars.len(),
        forall|i: int|
            0 <= i < args.len() ==> {
                &&& expr_ok(cx.regs, vars, #[trigger] args[i])
                &&& type_of(cx.regs, vars, args[i]) is Some
                &&& run_expr(machine.env(cx.regs, vars, start.mem), args[i]) is Some
            },
        lower_args(
            cx,
            (LowerSt { out: Seq::empty(), vars }),
            time,
            name,
            encodings,
            args,
            args.len(),
        ).errors.len() == 0,
    ensures
        ({
            let low = lower_args(
                cx,
                (LowerSt { out: Seq::empty(), vars }),
                time,
                name,
                encodings,
                args,
                args.len(),
            );
            &&& machine.run(cx.pairs, start, low.st.out) matches Some(end)
            &&& changed_only(start.mem, end.mem, None, vars.len())
            &&& low.args.len() == args.len()
            &&& forall|i: int|
                0 <= i < args.len() ==> run_expr(machine.env(cx.regs, vars, start.mem), args[i])
                    == Some(
                    machine.arg_value(
                        end.mem,
                        #[trigger] low.args[i],
                        encodings[i].expected_type_spec(),
                    ),
                )
        }),
{
    let st = LowerSt { out: Seq::empty(), vars };
    let end = lemma_args(
        machine,
        cx,
        start,
        st,
        start,
        time,
        name,
        encodings,
        args,
        args.len(),
    );
    let low = lower_args(cx, st, time, name, encodings, args, args.len());
    assert forall|i: int| 0 <= i < args.len() implies run_expr(
        machine.env(cx.regs, vars, start.mem),
        args[i],
    ) == Some(
        machine.arg_value(end.mem, #[trigger] low.args[i], encodings[i].expected_type_spec()),
    ) by {
        assert(passes(
            machine,
            machine.env(cx.regs, vars, start.mem),
            low.st.vars,
            end.mem,
            low.args[i],
            encodings[i].expected_type_spec(),
            args[i],
        ));
    }
}

/// Lowered code assigns what the statement says: where the statement is well typed, its value is
/// defined, and no other name of the variable occurs in it, the code leaves the value in the
/// variable, and changes nothing else but temporaries of its own.
pub proof fn law_assignment_assigns(
    machine: Machine,
    cx: LowerCx,
    vars: Seq<VarInfoV>,
    start: RunSt,
    span: Span,
    time: i32,
    var: Sp<VarV>,
    op: Sp<AssignOpKind>,
    rhs: Sp<ExprV>,
)
    requires
        machine.wf(),
        opcodes_unique(cx.pairs),
        cx.regs.reg_map@.len() <= vars.len(),
        var_ok(cx.regs, vars, var.value),
        expr_ok(cx.regs, vars, rhs),
        apart(cx.regs, rhs, var.value),
        type_of(cx.regs, vars, rhs) is Some,
        type_of(cx.regs, vars, rhs) == var_type_spec(cx.regs, vars, var.value),
        assigned_value(machine, cx.regs, vars, start.mem, var.value, op.value, rhs) is Some,
        assign_op(cx, (LowerSt { out: Seq::empty(), vars }), span, time, var, op, rhs).1 is None,
    ensures
        ({
            let code = assign_op(
                cx,
                (LowerSt { out: Seq::empty(), vars }),
                span,
                time,
                var,
                op,
                rhs,
            ).0.out;
            &&& machine.run(cx.pairs, start, code) matches Some(end)
            &&& Some((end.mem)(var_place(cx.regs, var.value)->0)) == assigned_value(
                machine,
                cx.regs,
                vars,
                start.mem,
                var.value,
                op.value,
                rhs,
            )
            &&& changed_only(start.mem, end.mem, var_place(cx.regs, var.value), vars.len())
            &&& end.events == start.events
        }),
{
    let st = LowerSt { out: Seq::empty(), vars };
    let value = assigned_value(
        machine,
        cx.regs,
        vars,
        start.mem,
        var.value,
        op.value,
        rhs,
    )->0;
    lemma_assign(machine, cx, start, st, start, span, time, var, op, rhs, value);
}

/// Lowered code decides about a jump as the condition says: where both sides have one type and
/// the comparison is defined, the code compares the values of the two sides, and changes nothing
/// but temporaries of its own.
pub proof fn law_jump_compares(
    machine: Machine,
    cx: LowerCx,
    vars: Seq<VarInfoV>,
    start: RunSt,
    time: i32,
    a: Sp<ExprV>,
    op: Sp<BinopKind>,
    b: Sp<ExprV>,
    goto: GotoV,
    value: ScalarValue,
)
    requires
        machine.wf(),
        opcodes_unique(cx.pairs),
        cx.regs.reg_map@.len() <= vars.len(),
        expr_ok(cx.regs, vars, a),
        expr_ok(cx.regs, vars, b),
        type_of(cx.regs, vars, a) is Some,
        type_of(cx.regs, vars, a) == type_of(cx.regs, vars, b),
        (
            run_expr(machine.env(cx.regs, vars, start.mem), a),
            run_expr(machine.env(cx.regs, vars, start.mem), b),
        ) matches (Some(x), Some(y)) && machine.operate(op.value, x, y) == Some(value),
        cond_jump_binop(cx, (LowerSt { out: Seq::empty(), vars }), time, a, op, b, goto).1 is None,
    ensures
        ({
            let code = cond_jump_binop(
                cx,
                (LowerSt { out: Seq::empty(), vars }),
                time,
                a,
                op,
                b,
                goto,
            ).0.out;
            &&& machine.run(cx.pairs, start, code) matches Some(end)
            &&& end.events == start.events.push(
                Event::Test { value, to: goto.destination.value, time: goto.time },
            )
            &&& changed_only(start.mem, end.mem, None, vars.len())
        }),
{
    let st = LowerSt { out: Seq::empty(), vars };
    let env = machine.env(cx.regs, vars, start.mem);
    lemma_cond(
        machine,
        cx,
        start,
        st,
        start,
        time,
        a,
        op,
        b,
        goto,
        type_of(cx.regs, vars, a)->0,
        run_expr(env, a)->0,
        run_expr(env, b)->0,
        value,
    );
}

} // verus!
