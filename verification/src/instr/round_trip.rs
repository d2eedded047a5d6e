//! Raising instructions and lowering the statements gives the instructions back.

use crate::error::ErrorV;
use crate::float32::F32;
use crate::ident::{as_ins_spec, ins_name};
use crate::instr::format::{all_raw, InstrFormat};
use crate::instr::labels::{
    encode_arg, encode_args, encode_labels_spec, encode_stmts, gather, gather_label_info_spec,
    gather_step, place_labels, GatherSt, LabelInfoV,
};
use crate::instr::lower::{
    assign_op, errors_of, frees, goto_args, instrs_only, instruction, lower_args, lower_body,
    lower_labels, lower_script, lower_stmt, lower_sub_ast, lower_var, simple_arg, ArgsSt, LowerCx,
    LowerSt, SubSt,
};
use crate::instr::raise::{
    arg_to_expr, arg_to_var, args_to_exprs, default_label, raise_general, raise_instr_spec,
    raise_stmts, trimmed_len, RaiseError, RaiseErrorKind,
};
use crate::instr::registers::{
    assign_args, assign_registers_spec, assign_stmts, reg_cx, Held, RegCx, RegSt,
};
use crate::instr::{
    effective_pairs, intrinsic_of, law_table_is_consistent, InstrArgV, InstrV,
    IntrinsicInstrKind, LowV, RawArg,
};
use crate::pos::{sp_null, Sp};
use crate::scope::VarInfoV;
use crate::script::{BodyV, ExprV, LabelV, StmtV, VarV};
use crate::text::lemma_numbered_name_injective;
use crate::type_system::{unpadded_len, ArgEncoding, RegsAndInstrs, ScalarType};
use vstd::prelude::*;

verus! {

// =============================================================================
// Arguments

/// Whether a register that an argument names is written, as a variable of a script, in a way that
/// leads back to the argument: a name of the register is the name of no other, and the encoding of
/// a float is the usual one.
pub open spec fn reg_is_faithful(regs: RegsAndInstrs, raw: RawArg, ty: ScalarType) -> bool {
    let reg = match ty {
        ScalarType::Int => raw.bits as i32,
        ScalarType::Float => (F32 { bits: raw.bits }).to_i32_spec() as i32,
    };
    &&& regs.reg_names@.contains_key(reg) ==> regs.named_reg(
        regs.reg_names@[reg]@,
        regs.reg_map@.len(),
    ) == Some(reg)
    &&& RawArg::from_reg_spec(reg, ty) == raw
}

/// Whether an argument can be told from the expression that it is raised to.
pub open spec fn arg_is_faithful(regs: RegsAndInstrs, raw: RawArg, ty: ScalarType) -> bool {
    raw.is_var ==> reg_is_faithful(regs, raw, ty)
}

proof fn lemma_cast(bits: u32)
    ensures
        (bits as i32) as u32 == bits,
{
    assert((bits as i32) as u32 == bits) by (bit_vector);
}

proof fn lemma_var_back(
    regs: RegsAndInstrs,
    vars: Seq<VarInfoV>,
    raw: RawArg,
    ty: ScalarType,
    var: VarV,
)
    requires
        arg_to_var(regs, raw, ty) == Ok::<VarV, RaiseErrorKind>(var),
        arg_is_faithful(regs, raw, ty),
    ensures
        lower_var(regs, vars, sp_null(var)) == Ok::<(InstrArgV, ScalarType), ErrorV>(
            (InstrArgV::Raw(raw), ty),
        ),
{
}

proof fn lemma_expr_back(
    regs: RegsAndInstrs,
    vars: Seq<VarInfoV>,
    raw: RawArg,
    enc: ArgEncoding,
    e: Sp<ExprV>,
)
    requires
        arg_to_expr(regs, raw, enc) == Ok::<Sp<ExprV>, RaiseErrorKind>(e),
        arg_is_faithful(regs, raw, enc.expected_type_spec()),
    ensures
        simple_arg(regs, vars, e) == Ok::<Option<(InstrArgV, ScalarType)>, ErrorV>(
            Some((InstrArgV::Raw(raw), enc.expected_type_spec())),
        ),
{
    if raw.is_var {
        let var = arg_to_var(regs, raw, enc.expected_type_spec())->Ok_0;
        lemma_var_back(regs, vars, raw, enc.expected_type_spec(), var);
    } else {
        lemma_cast(raw.bits);
    }
}

// =============================================================================
// Instructions

/// What an instruction is raised as.
pub open spec fn kind_of<F: InstrFormat>(format: F, opcode: u16) -> Option<IntrinsicInstrKind> {
    intrinsic_of(effective_pairs(format.pairs_spec()), opcode)
}

/// The type of an argument of an instruction.
pub open spec fn type_of_arg<F: InstrFormat>(
    format: F,
    regs: RegsAndInstrs,
    opcode: u16,
    i: int,
) -> ScalarType {
    match kind_of(format, opcode) {
        Some(IntrinsicInstrKind::AssignOp(_, ty)) => ty,
        Some(IntrinsicInstrKind::Binop(_, ty)) => ty,
        Some(IntrinsicInstrKind::CondJmp(_, ty)) => if i < 2 {
            ty
        } else {
            ScalarType::Int
        },
        Some(IntrinsicInstrKind::Jmp) => ScalarType::Int,
        Some(IntrinsicInstrKind::InterruptLabel) => ScalarType::Int,
        Some(IntrinsicInstrKind::CountJmp) => ScalarType::Int,
        _ => match regs.ins_signature_spec(opcode) {
            Some(encodings) => encodings[i].expected_type_spec(),
            None => ScalarType::Int,
        },
    }
}

/// Which argument of an instruction is the label of a jump.
pub open spec fn label_arg<F: InstrFormat>(format: F, opcode: u16) -> Option<int> {
    match kind_of(format, opcode) {
        Some(IntrinsicInstrKind::Jmp) => Some(0),
        Some(IntrinsicInstrKind::CountJmp) => Some(1),
        Some(IntrinsicInstrKind::CondJmp(_, _)) => Some(2),
        _ => None,
    }
}

/// How many arguments of an instruction a script shows.  The others are zero.
pub open spec fn shown_args<F: InstrFormat>(format: F, regs: RegsAndInstrs, instr: InstrV) -> nat {
    match kind_of(format, instr.opcode) {
        Some(IntrinsicInstrKind::Jmp) => 2,
        Some(IntrinsicInstrKind::InterruptLabel) => 1,
        Some(IntrinsicInstrKind::AssignOp(_, _)) => 2,
        Some(IntrinsicInstrKind::Binop(_, _)) => 3,
        Some(IntrinsicInstrKind::CountJmp) => 3,
        Some(IntrinsicInstrKind::CondJmp(_, _)) => 4,
        _ => match regs.ins_signature_spec(instr.opcode) {
            Some(encodings) => trimmed_len(encodings, instr.args, instr.args.len()),
            None => instr.args.len(),
        },
    }
}

/// An instruction without the zeros at its end that a script does not show.
pub open spec fn without_padding<F: InstrFormat>(
    format: F,
    regs: RegsAndInstrs,
    instr: InstrV,
) -> InstrV {
    InstrV { args: instr.args.take(shown_args(format, regs, instr) as int), ..instr }
}

/// An instruction without those zeros, and with the label that it jumps to.
pub open spec fn with_label<F: InstrFormat>(format: F, regs: RegsAndInstrs, instr: InstrV) -> InstrV {
    let shown = without_padding(format, regs, instr);
    match label_arg(format, instr.opcode) {
        Some(i) => InstrV {
            args: shown.args.update(
                i,
                InstrArgV::Label(default_label(format.decode_label_spec(instr.args[i]->Raw_0.bits))),
            ),
            ..shown
        },
        None => shown,
    }
}

/// The name of an instruction in a script.
pub open spec fn name_of_ins(regs: RegsAndInstrs, opcode: u16) -> Seq<char> {
    if regs.opcode_names@.contains_key(opcode) {
        regs.opcode_names@[opcode]@
    } else {
        ins_name(opcode)
    }
}

/// Whether an instruction can be told from the statement that it is raised to.
///
/// Its registers can be told from their names, and its opcode from its name.  The signature of an
/// instruction without syntax of its own is known.
pub open spec fn instr_is_faithful<F: InstrFormat>(
    format: F,
    regs: RegsAndInstrs,
    instr: InstrV,
) -> bool {
    &&& all_raw(instr.args)
    &&& forall|i: int|
        0 <= i < instr.args.len() ==> arg_is_faithful(
            regs,
            (#[trigger] instr.args[i])->Raw_0,
            type_of_arg(format, regs, instr.opcode, i),
        )
    &&& match label_arg(format, instr.opcode) {
        Some(i) => {
            let raw = instr.args[i]->Raw_0;
            &&& !raw.is_var
            &&& format.encode_label_spec(format.decode_label_spec(raw.bits)) == raw.bits
        },
        None => true,
    }
    &&& match kind_of(format, instr.opcode) {
        Some(IntrinsicInstrKind::Jmp) => format.jump_has_time_arg_spec(),
        Some(IntrinsicInstrKind::TransOp(_)) | None => {
            &&& regs.ins_signature_spec(instr.opcode) is Some
            &&& as_ins_spec(
                regs.resolve_func_aliases_spec(name_of_ins(regs, instr.opcode)),
            ) == Some(instr.opcode)
        },
        _ => true,
    }
}

proof fn lemma_exprs_len(
    regs: RegsAndInstrs,
    encodings: Seq<ArgEncoding>,
    args: Seq<InstrArgV>,
    n: nat,
)
    requires
        n <= args.len(),
    ensures
        args_to_exprs(regs, encodings, args, n) matches Ok(es) ==> es.len() == n && forall|i: int|
            0 <= i < n ==> arg_to_expr(regs, args[i]->Raw_0, encodings[i]) == Ok::<
                Sp<ExprV>,
                RaiseErrorKind,
            >(#[trigger] es[i]),
    decreases n,
{
    if n > 0 {
        lemma_exprs_len(regs, encodings, args, (n - 1) as nat);
    }
}

proof fn lemma_trimmed(encodings: Seq<ArgEncoding>, args: Seq<InstrArgV>, n: nat)
    requires
        n <= args.len(),
        args.len() == encodings.len(),
    ensures
        trimmed_len(encodings, args, n) <= n,
        unpadded_len(encodings.take(n as int)) <= trimmed_len(encodings, args, n),
    decreases n,
{
    if n > 0 {
        lemma_trimmed(encodings, args, (n - 1) as nat);
        assert(encodings.take(n as int).drop_last() =~= encodings.take(n - 1));
        lemma_unpadded(encodings.take(n as int));
    }
}

proof fn lemma_unpadded(s: Seq<ArgEncoding>)
    ensures
        unpadded_len(s) <= s.len(),
    decreases s.len(),
{
    if s.len() > 0 {
        lemma_unpadded(s.drop_last());
    }
}

/// Lowering the expressions of arguments gives the arguments, and needs no temporaries.
proof fn lemma_args_back(
    cx: LowerCx,
    st: LowerSt,
    time: i32,
    name: Sp<Seq<char>>,
    encodings: Seq<ArgEncoding>,
    raws: Seq<InstrArgV>,
    es: Seq<Sp<ExprV>>,
    n: nat,
)
    requires
        n <= es.len() <= raws.len(),
        raws.len() == encodings.len(),
        all_raw(raws),
        forall|i: int|
            0 <= i < es.len() ==> arg_to_expr(cx.regs, raws[i]->Raw_0, encodings[i]) == Ok::<
                Sp<ExprV>,
                RaiseErrorKind,
            >(#[trigger] es[i]),
        forall|i: int|
            0 <= i < raws.len() ==> arg_is_faithful(
                cx.regs,
                (#[trigger] raws[i])->Raw_0,
                encodings[i].expected_type_spec(),
            ),
    ensures
        lower_args(cx, st, time, name, encodings, es, n) == (ArgsSt {
            st,
            args: raws.take(n as int),
            temps: seq![],
            errors: seq![],
        }),
    decreases n,
{
    if n == 0 {
        assert(raws.take(0) =~= seq![]);
    } else {
        lemma_args_back(cx, st, time, name, encodings, raws, es, (n - 1) as nat);
        let e = es[n - 1];
        assert(raws[n - 1] is Raw);
        lemma_expr_back(cx.regs, st.vars, raws[n - 1]->Raw_0, encodings[n - 1], e);
        assert(raws.take(n as int) =~= raws.take(n - 1).push(raws[n - 1]));
    }
}

/// The state of lowering with one more instruction.
pub open spec fn with_instr(sub: SubSt, instr: InstrV) -> LowerSt {
    sub.st.push(LowV::Instr(instr))
}

proof fn lemma_general_back<F: InstrFormat>(
    cx: LowerCx,
    format: F,
    sub: SubSt,
    instr: InstrV,
    body: BodyV,
)
    requires
        cx.pairs == effective_pairs(format.pairs_spec()),
        instr_is_faithful(format, cx.regs, instr),
        kind_of(format, instr.opcode) is None || kind_of(format, instr.opcode)->0 is TransOp,
        raise_general(cx.regs, instr.opcode, instr.args) == Ok::<
            BodyV,
            (RaiseErrorKind, Option<usize>),
        >(body),
    ensures
        lower_body(cx, format, sub, instr.time, sp_null(body)).st == with_instr(
            sub,
            with_label(format, cx.regs, instr),
        ),
        lower_body(cx, format, sub, instr.time, sp_null(body)).errors == sub.errors,
        !format.terminating_spec(instr.opcode) ==> lower_body(
            cx,
            format,
            sub,
            instr.time,
            sp_null(body),
        ).end == sub.end,
{
    let encodings = cx.regs.ins_signature_spec(instr.opcode)->0;
    let name = name_of_ins(cx.regs, instr.opcode);
    let all = args_to_exprs(cx.regs, encodings, instr.args, instr.args.len())->Ok_0;
    lemma_exprs_len(cx.regs, encodings, instr.args, instr.args.len());
    let n = trimmed_len(encodings, instr.args, instr.args.len());
    lemma_trimmed(encodings, instr.args, instr.args.len());
    assert(encodings.take(instr.args.len() as int) =~= encodings);
    let es = all.take(n as int);
    assert(body == BodyV::Expr(sp_null(ExprV::Call { func: sp_null(name), args: es })));
    assert forall|i: int| 0 <= i < instr.args.len() implies arg_is_faithful(
        cx.regs,
        (#[trigger] instr.args[i])->Raw_0,
        encodings[i].expected_type_spec(),
    ) by {
        assert(type_of_arg(format, cx.regs, instr.opcode, i) == encodings[i].expected_type_spec());
    }
    lemma_args_back(
        cx,
        sub.st,
        instr.time,
        sp_null(name),
        encodings,
        instr.args,
        es,
        n,
    );
    let low = InstrV { args: instr.args.take(n as int), ..instr };
    assert(frees(seq![]) =~= seq![]);
    let st1 = instruction(cx, sub.st, instr.time, instr.opcode, sp_null(name), es).0;
    assert(st1.out =~= sub.st.out.push(LowV::Instr(low)));
}

/// Lowering the statement of an instruction gives the instruction, with a label where it jumps.
spec fn comes_back<F: InstrFormat>(
    cx: LowerCx,
    format: F,
    sub: SubSt,
    instr: InstrV,
    body: BodyV,
) -> bool {
    let after = lower_body(cx, format, sub, instr.time, sp_null(body));
    &&& after.st == with_instr(sub, with_label(format, cx.regs, instr))
    &&& after.errors == sub.errors
    &&& !format.terminating_spec(instr.opcode) ==> after.end == sub.end
    &&& !(body is NoInstruction)
    &&& shown_args(format, cx.regs, instr) <= instr.args.len()
    &&& match label_arg(format, instr.opcode) {
        Some(i) => 0 <= i < shown_args(format, cx.regs, instr) && format.decodable(
            instr.args[i]->Raw_0.bits,
        ),
        None => true,
    }
}

/// Whether an instruction was raised, and can be told from its statement.
spec fn raised_to<F: InstrFormat>(cx: LowerCx, format: F, instr: InstrV, body: BodyV) -> bool {
    &&& cx.pairs == effective_pairs(format.pairs_spec())
    &&& instr_is_faithful(format, cx.regs, instr)
    &&& raise_instr_spec(format, cx.regs, cx.pairs, instr) == Ok::<BodyV, RaiseError>(body)
}

proof fn lemma_jump_back<F: InstrFormat>(
    cx: LowerCx,
    format: F,
    sub: SubSt,
    instr: InstrV,
    body: BodyV,
)
    requires
        raised_to(cx, format, instr, body),
        kind_of(format, instr.opcode) matches Some(kind) && (kind is Jmp || kind is InterruptLabel),
    ensures
        comes_back(cx, format, sub, instr, body),
{
    law_table_is_consistent(format.pairs_spec(), instr.opcode);
    let args = instr.args;
    let low = with_label(format, cx.regs, instr);
    assert(sub.errors + errors_of(None) =~= sub.errors);
    if kind_of(format, instr.opcode)->0 is Jmp {
        assert(args[0] is Raw && args[1] is Raw);
        lemma_cast(args[1]->Raw_0.bits);
        let goto = body->Jump_0;
        assert(low.args =~= seq![goto_args(goto).0, goto_args(goto).1]);
    } else {
        assert(args[0] is Raw);
        lemma_cast(args[0]->Raw_0.bits);
        assert(low.args =~= seq![args[0]]);
    }
}

proof fn lemma_cond_jump_back<F: InstrFormat>(
    cx: LowerCx,
    format: F,
    sub: SubSt,
    instr: InstrV,
    body: BodyV,
)
    requires
        raised_to(cx, format, instr, body),
        kind_of(format, instr.opcode) matches Some(kind) && (kind is CountJmp || kind is CondJmp),
    ensures
        comes_back(cx, format, sub, instr, body),
{
    law_table_is_consistent(format.pairs_spec(), instr.opcode);
    let args = instr.args;
    let low = with_label(format, cx.regs, instr);
    assert(sub.errors + errors_of(None) =~= sub.errors);
    let goto = body->CondJump_jump;
    if let IntrinsicInstrKind::CondJmp(op, ty) = kind_of(format, instr.opcode)->0 {
        assert(args[0] is Raw && args[1] is Raw && args[2] is Raw && args[3] is Raw);
        lemma_cast(args[3]->Raw_0.bits);
        let enc = ty.default_encoding_spec();
        let a = arg_to_expr(cx.regs, args[0]->Raw_0, enc)->Ok_0;
        let b = arg_to_expr(cx.regs, args[1]->Raw_0, enc)->Ok_0;
        lemma_expr_back(cx.regs, sub.st.vars, args[0]->Raw_0, enc, a);
        lemma_expr_back(cx.regs, sub.st.vars, args[1]->Raw_0, enc, b);
        assert(low.args =~= seq![args[0], args[1], goto_args(goto).0, goto_args(goto).1]);
    } else {
        assert(args[0] is Raw && args[1] is Raw && args[2] is Raw);
        lemma_cast(args[2]->Raw_0.bits);
        let var = arg_to_var(cx.regs, args[0]->Raw_0, ScalarType::Int)->Ok_0;
        lemma_var_back(cx.regs, sub.st.vars, args[0]->Raw_0, ScalarType::Int, var);
        assert(low.args =~= seq![args[0], goto_args(goto).0, goto_args(goto).1]);
    }
}

proof fn lemma_assign_back<F: InstrFormat>(
    cx: LowerCx,
    format: F,
    sub: SubSt,
    instr: InstrV,
    body: BodyV,
)
    requires
        raised_to(cx, format, instr, body),
        kind_of(format, instr.opcode) matches Some(kind) && (kind is AssignOp || kind is Binop),
    ensures
        comes_back(cx, format, sub, instr, body),
{
    law_table_is_consistent(format.pairs_spec(), instr.opcode);
    let args = instr.args;
    let low = with_label(format, cx.regs, instr);
    assert(sub.errors + errors_of(None) =~= sub.errors);
    let (var, value) = (body->Assignment_var, body->value);
    if let IntrinsicInstrKind::Binop(op, ty) = kind_of(format, instr.opcode)->0 {
        assert(args[0] is Raw && args[1] is Raw && args[2] is Raw);
        let enc = ty.default_encoding_spec();
        let a = arg_to_expr(cx.regs, args[1]->Raw_0, enc)->Ok_0;
        let b = arg_to_expr(cx.regs, args[2]->Raw_0, enc)->Ok_0;
        lemma_var_back(cx.regs, sub.st.vars, args[0]->Raw_0, ty, var.value);
        lemma_expr_back(cx.regs, sub.st.vars, args[1]->Raw_0, enc, a);
        lemma_expr_back(cx.regs, sub.st.vars, args[2]->Raw_0, enc, b);
        assert(low.args =~= seq![args[0], args[1], args[2]]);
        reveal_with_fuel(assign_op, 2);
    } else {
        let ty = kind_of(format, instr.opcode)->0->AssignOp_1;
        assert(args[0] is Raw && args[1] is Raw);
        lemma_var_back(cx.regs, sub.st.vars, args[0]->Raw_0, ty, var.value);
        let enc = ty.default_encoding_spec();
        lemma_expr_back(cx.regs, sub.st.vars, args[1]->Raw_0, enc, value);
        assert(low.args =~= seq![args[0], args[1]]);
    }
}

proof fn lemma_body_back<F: InstrFormat>(
    cx: LowerCx,
    format: F,
    sub: SubSt,
    instr: InstrV,
    body: BodyV,
)
    requires
        raised_to(cx, format, instr, body),
    ensures
        comes_back(cx, format, sub, instr, body),
{
    match kind_of(format, instr.opcode) {
        Some(IntrinsicInstrKind::Jmp) | Some(IntrinsicInstrKind::InterruptLabel) => {
            lemma_jump_back(cx, format, sub, instr, body);
        },
        Some(IntrinsicInstrKind::AssignOp(_, _)) | Some(IntrinsicInstrKind::Binop(_, _)) => {
            lemma_assign_back(cx, format, sub, instr, body);
        },
        Some(IntrinsicInstrKind::CountJmp) | Some(IntrinsicInstrKind::CondJmp(_, _)) => {
            lemma_cond_jump_back(cx, format, sub, instr, body);
        },
        Some(IntrinsicInstrKind::TransOp(_)) | None => {
            lemma_general_back(cx, format, sub, instr, body);
            let encodings = cx.regs.ins_signature_spec(instr.opcode)->0;
            lemma_trimmed(encodings, instr.args, instr.args.len());
        },
    }
}

// =============================================================================
// Scripts

/// The offset of an instruction: the size of all before it.
pub open spec fn offset_of<F: InstrFormat>(format: F, script: Seq<InstrV>, n: nat) -> nat
    decreases n,
{
    if n == 0 {
        0
    } else {
        offset_of(format, script, (n - 1) as nat) + format.instr_size_spec(script[n - 1])
    }
}

/// Whether every instruction of a script can be told from its statement, and every jump goes to an
/// instruction.
///
/// Nothing stands behind an instruction that ends the script, and what a script does not show of an
/// instruction takes no space.
pub open spec fn script_is_faithful<F: InstrFormat>(
    format: F,
    regs: RegsAndInstrs,
    script: Seq<InstrV>,
) -> bool {
    &&& forall|i: int|
        0 <= i < script.len() ==> {
            &&& instr_is_faithful(format, regs, #[trigger] script[i])
            &&& format.instr_size_spec(script[i]) > 0
            &&& format.instr_size_spec(with_label(format, regs, script[i]))
                == format.instr_size_spec(script[i])
            &&& i < script.len() - 1 ==> !format.terminating_spec(script[i].opcode)
            &&& goes_to_instr(format, script, script[i])
        }
}

/// Whether the place that an instruction jumps to is that of an instruction.
pub open spec fn goes_to_instr<F: InstrFormat>(
    format: F,
    script: Seq<InstrV>,
    instr: InstrV,
) -> bool {
    match label_arg(format, instr.opcode) {
        Some(k) => exists|j: int|
            0 <= j < script.len() && #[trigger] offset_of(format, script, j as nat)
                == format.decode_label_spec(instr.args[k]->Raw_0.bits),
        None => true,
    }
}

/// A script as it is given back.
pub open spec fn script_without_padding<F: InstrFormat>(
    format: F,
    regs: RegsAndInstrs,
    script: Seq<InstrV>,
) -> Seq<InstrV> {
    Seq::new(script.len(), |i: int| without_padding(format, regs, script[i]))
}

/// The code of the first `n` instructions, with their labels.
spec fn low_code<F: InstrFormat>(
    format: F,
    regs: RegsAndInstrs,
    script: Seq<InstrV>,
    n: nat,
) -> Seq<LowV>
    decreases n,
{
    if n == 0 {
        seq![]
    } else {
        low_code(format, regs, script, (n - 1) as nat).push(
            LowV::Label(default_label(offset_of(format, script, (n - 1) as nat))),
        ).push(LowV::Instr(with_label(format, regs, script[n - 1])))
    }
}

/// The same code with the values of the labels.
spec fn final_code<F: InstrFormat>(
    format: F,
    regs: RegsAndInstrs,
    script: Seq<InstrV>,
    n: nat,
) -> Seq<LowV>
    decreases n,
{
    if n == 0 {
        seq![]
    } else {
        final_code(format, regs, script, (n - 1) as nat).push(
            LowV::Label(default_label(offset_of(format, script, (n - 1) as nat))),
        ).push(LowV::Instr(without_padding(format, regs, script[n - 1])))
    }
}

proof fn lemma_low_code<F: InstrFormat>(format: F, regs: RegsAndInstrs, script: Seq<InstrV>, n: nat)
    ensures
        low_code(format, regs, script, n).len() == 2 * n,
        final_code(format, regs, script, n).len() == 2 * n,
        forall|i: int|
            0 <= i < n ==> #[trigger] low_code(format, regs, script, n)[2 * i] == LowV::Label(
                default_label(offset_of(format, script, i as nat)),
            ),
        forall|i: int|
            0 <= i < n ==> #[trigger] low_code(format, regs, script, n)[2 * i + 1] == LowV::Instr(
                with_label(format, regs, script[i]),
            ),
        forall|i: int|
            0 <= i < n ==> #[trigger] final_code(format, regs, script, n)[2 * i] == LowV::Label(
                default_label(offset_of(format, script, i as nat)),
            ),
        forall|i: int|
            0 <= i < n ==> #[trigger] final_code(format, regs, script, n)[2 * i + 1]
                == LowV::Instr(without_padding(format, regs, script[i])),
    decreases n,
{
    if n > 0 {
        lemma_low_code(format, regs, script, (n - 1) as nat);
        let low = low_code(format, regs, script, n);
        let before = low_code(format, regs, script, (n - 1) as nat);
        let done = final_code(format, regs, script, n);
        let done_before = final_code(format, regs, script, (n - 1) as nat);
        assert forall|i: int| 0 <= i < n implies #[trigger] low[2 * i] == LowV::Label(
            default_label(offset_of(format, script, i as nat)),
        ) by {
            if i < n - 1 {
                assert(low[2 * i] == before[2 * i]);
            }
        }
        assert forall|i: int| 0 <= i < n implies #[trigger] low[2 * i + 1] == LowV::Instr(
            with_label(format, regs, script[i]),
        ) by {
            if i < n - 1 {
                assert(low[2 * i + 1] == before[2 * i + 1]);
            }
        }
        assert forall|i: int| 0 <= i < n implies #[trigger] done[2 * i] == LowV::Label(
            default_label(offset_of(format, script, i as nat)),
        ) by {
            if i < n - 1 {
                assert(done[2 * i] == done_before[2 * i]);
            }
        }
        assert forall|i: int| 0 <= i < n implies #[trigger] done[2 * i + 1] == LowV::Instr(
            without_padding(format, regs, script[i]),
        ) by {
            if i < n - 1 {
                assert(done[2 * i + 1] == done_before[2 * i + 1]);
            }
        }
    }
}

/// The statement that an instruction is raised to.
spec fn stmt_of<F: InstrFormat>(
    format: F,
    regs: RegsAndInstrs,
    script: Seq<InstrV>,
    i: int,
) -> Sp<StmtV> {
    let pairs = effective_pairs(format.pairs_spec());
    sp_null(
        StmtV {
            time: script[i].time,
            labels: seq![
                sp_null(LabelV::Label(default_label(offset_of(format, script, i as nat)))),
            ],
            body: sp_null(raise_instr_spec(format, regs, pairs, script[i])->Ok_0),
        },
    )
}

proof fn lemma_raised_stmts<F: InstrFormat>(
    format: F,
    regs: RegsAndInstrs,
    script: Seq<InstrV>,
    n: nat,
)
    requires
        n <= script.len(),
        raise_stmts(format, regs, script, n) is Ok,
    ensures
        ({
            let (stmts, offset) = raise_stmts(format, regs, script, n)->Ok_0;
            &&& stmts.len() == n
            &&& offset == offset_of(format, script, n)
            &&& forall|i: int| 0 <= i < n ==> #[trigger] stmts[i] == stmt_of(format, regs, script, i)
        }),
        forall|i: int|
            0 <= i < n ==> {
                &&& raise_instr_spec(
                    format,
                    regs,
                    effective_pairs(format.pairs_spec()),
                    #[trigger] script[i],
                ) is Ok
                &&& offset_of(format, script, i as nat) + format.instr_size_spec(script[i])
                    <= usize::MAX
            },
    decreases n,
{
    if n > 0 {
        lemma_raised_stmts(format, regs, script, (n - 1) as nat);
    }
}

proof fn lemma_lowered_stmts<F: InstrFormat>(
    format: F,
    regs: RegsAndInstrs,
    vars: Seq<VarInfoV>,
    script: Seq<InstrV>,
    stmts: Seq<Sp<StmtV>>,
    n: nat,
)
    requires
        n <= script.len(),
        script_is_faithful(format, regs, script),
        raise_stmts(format, regs, script, script.len()) matches Ok((s, _)) && s == stmts,
    ensures
        ({
            let cx = LowerCx { regs, pairs: effective_pairs(format.pairs_spec()) };
            let sub = lower_sub_ast(cx, format, LowerSt { out: seq![], vars }, stmts, n);
            &&& sub.st == (LowerSt { out: low_code(format, regs, script, n), vars })
            &&& sub.errors == Seq::<ErrorV>::empty()
            &&& n < script.len() || n == 0 ==> sub.end is None
        }),
    decreases n,
{
    if n > 0 {
        let cx = LowerCx { regs, pairs: effective_pairs(format.pairs_spec()) };
        let start = LowerSt { out: seq![], vars };
        lemma_lowered_stmts(format, regs, vars, script, stmts, (n - 1) as nat);
        lemma_raised_stmts(format, regs, script, script.len());
        let sub = lower_sub_ast(cx, format, start, stmts, (n - 1) as nat);
        let instr = script[n - 1];
        let stmt = stmts[n - 1].value;
        assert(stmts[n - 1] == stmt_of(format, regs, script, n - 1));
        let body = raise_instr_spec(format, regs, cx.pairs, instr)->Ok_0;
        let label = default_label(offset_of(format, script, (n - 1) as nat));
        reveal_with_fuel(lower_labels, 2);
        let st1 = sub.st.push(LowV::Label(label));
        assert(lower_labels(sub.st, stmt.labels, 1) == (st1, None::<ErrorV>));
        lemma_body_back(cx, format, SubSt { st: st1, ..sub }, instr, body);
        assert(sub.end is None);
        assert(lower_stmt(cx, format, sub, stmt) == lower_body(
            cx,
            format,
            SubSt { st: st1, ..sub },
            instr.time,
            sp_null(body),
        ));
    }
}

proof fn lemma_offsets_grow<F: InstrFormat>(format: F, script: Seq<InstrV>, i: nat, j: nat)
    requires
        i < j <= script.len(),
        forall|k: int| 0 <= k < script.len() ==> format.instr_size_spec(#[trigger] script[k]) > 0,
    ensures
        offset_of(format, script, i) < offset_of(format, script, j),
    decreases j,
{
    assert(format.instr_size_spec(script[j - 1]) > 0);
    if i < j - 1 {
        lemma_offsets_grow(format, script, i, (j - 1) as nat);
    }
}

/// The name of the label of an instruction.
spec fn label_name<F: InstrFormat>(format: F, script: Seq<InstrV>, i: int) -> Seq<char> {
    default_label(offset_of(format, script, i as nat)).value
}

/// Whether the labels of the first `n` instructions are known, and no others.
spec fn labels_known<F: InstrFormat>(
    format: F,
    script: Seq<InstrV>,
    labels: Map<Seq<char>, LabelInfoV>,
    n: nat,
) -> bool {
    &&& forall|i: int|
        0 <= i < n ==> {
            let name = #[trigger] label_name(format, script, i);
            labels.contains_key(name) && labels[name].offset == offset_of(
                format,
                script,
                i as nat,
            )
        }
    &&& forall|name: Seq<char>| #[trigger]
        labels.contains_key(name) ==> exists|i: int|
            0 <= i < n && name == #[trigger] label_name(format, script, i)
}

/// A label and the instruction behind it give the label a place.
proof fn lemma_gather_two<F: InstrFormat>(
    format: F,
    before: GatherSt,
    label: Sp<Seq<char>>,
    instr: InstrV,
)
    requires
        before.pending == Seq::<Sp<Seq<char>>>::empty(),
        !before.labels.contains_key(label.value),
        before.offset + format.instr_size_spec(instr) <= usize::MAX,
    ensures
        gather_step(
            format,
            gather_step(format, before, LowV::Label(label)),
            LowV::Instr(instr),
        ) == (GatherSt {
            offset: before.offset + format.instr_size_spec(instr),
            pending: seq![],
            labels: before.labels.insert(
                label.value,
                LabelInfoV { ident: label, time: instr.time, offset: before.offset },
            ),
            errors: before.errors,
        }),
{
    let mid = gather_step(format, before, LowV::Label(label));
    assert(mid.pending =~= seq![label]);
    reveal_with_fuel(place_labels, 2);
}

pub proof fn lemma_shown_args<F: InstrFormat>(format: F, regs: RegsAndInstrs, instr: InstrV)
    requires
        instr_is_faithful(format, regs, instr),
        raise_instr_spec(format, regs, effective_pairs(format.pairs_spec()), instr) is Ok,
    ensures
        with_label(format, regs, instr).args.len() <= instr.args.len(),
        without_padding(format, regs, instr).args.len() == shown_args(format, regs, instr),
        all_raw(without_padding(format, regs, instr).args),
        label_arg(format, instr.opcode) matches Some(i) ==> 0 <= i < shown_args(
            format,
            regs,
            instr,
        ),
{
    let cx = LowerCx { regs, pairs: effective_pairs(format.pairs_spec()) };
    let body = raise_instr_spec(format, regs, cx.pairs, instr)->Ok_0;
    lemma_body_back(cx, format, arbitrary(), instr, body);
    let args = without_padding(format, regs, instr).args;
    assert forall|a: int| 0 <= a < args.len() implies (#[trigger] args[a]) is Raw by {
        assert(args[a] == instr.args[a]);
    }
}

/// The code of one instruction.
proof fn lemma_code_at<F: InstrFormat>(
    format: F,
    regs: RegsAndInstrs,
    script: Seq<InstrV>,
    k: int,
)
    requires
        0 <= k < script.len(),
    ensures
        ({
            let code = low_code(format, regs, script, script.len());
            &&& code.len() == 2 * script.len()
            &&& code[2 * k] == LowV::Label(default_label(offset_of(format, script, k as nat)))
            &&& code[2 * k + 1] == LowV::Instr(with_label(format, regs, script[k]))
        }),
{
    lemma_low_code(format, regs, script, script.len());
}

/// The label of an instruction is that of no instruction before it.
proof fn lemma_label_is_new<F: InstrFormat>(
    format: F,
    script: Seq<InstrV>,
    labels: Map<Seq<char>, LabelInfoV>,
    k: nat,
)
    requires
        k < script.len(),
        forall|i: int| 0 <= i < script.len() ==> format.instr_size_spec(#[trigger] script[i]) > 0,
        labels_known(format, script, labels, k),
    ensures
        !labels.contains_key(label_name(format, script, k as int)),
{
    let name = label_name(format, script, k as int);
    if labels.contains_key(name) {
        let i = choose|i: int| 0 <= i < k && name == #[trigger] label_name(format, script, i);
        lemma_offsets_grow(format, script, i as nat, k);
        lemma_numbered_name_injective(
            "label_"@,
            offset_of(format, script, i as nat),
            offset_of(format, script, k),
        );
    }
}

proof fn lemma_one_more_label<F: InstrFormat>(
    format: F,
    script: Seq<InstrV>,
    labels: Map<Seq<char>, LabelInfoV>,
    k: nat,
    info: LabelInfoV,
)
    requires
        labels_known(format, script, labels, k),
        !labels.contains_key(label_name(format, script, k as int)),
        info.offset == offset_of(format, script, k),
    ensures
        labels_known(
            format,
            script,
            labels.insert(label_name(format, script, k as int), info),
            k + 1,
        ),
{
    let label = label_name(format, script, k as int);
    let after = labels.insert(label, info);
    assert forall|i: int| 0 <= i < k + 1 implies {
        let name = #[trigger] label_name(format, script, i);
        after.contains_key(name) && after[name].offset == offset_of(format, script, i as nat)
    } by {
        if i < k {
            assert(labels.contains_key(label_name(format, script, i)));
        }
    }
    assert forall|name: Seq<char>| #[trigger] after.contains_key(name) implies exists|i: int|
        0 <= i < k + 1 && name == #[trigger] label_name(format, script, i) by {
        if name == label {
            assert(name == label_name(format, script, k as int));
        } else {
            assert(labels.contains_key(name));
            let i = choose|i: int| 0 <= i < k && name == #[trigger] label_name(format, script, i);
            assert(name == label_name(format, script, i));
        }
    }
}

proof fn lemma_gathered_labels<F: InstrFormat>(
    format: F,
    regs: RegsAndInstrs,
    script: Seq<InstrV>,
    n: nat,
)
    requires
        n <= script.len(),
        script_is_faithful(format, regs, script),
        raise_stmts(format, regs, script, script.len()) is Ok,
    ensures
        ({
            let code = low_code(format, regs, script, script.len());
            let st = gather(format, 0, code, 2 * n);
            &&& st.offset == offset_of(format, script, n)
            &&& st.pending == Seq::<Sp<Seq<char>>>::empty()
            &&& st.errors == Seq::<ErrorV>::empty()
            &&& labels_known(format, script, st.labels, n)
        }),
    decreases n,
{
    if n > 0 {
        let k = (n - 1) as nat;
        lemma_gathered_labels(format, regs, script, k);
        lemma_code_at(format, regs, script, k as int);
        lemma_raised_stmts(format, regs, script, script.len());
        let code = low_code(format, regs, script, script.len());
        let before = gather(format, 0, code, 2 * k);
        let instr = with_label(format, regs, script[k as int]);
        let label = default_label(offset_of(format, script, k));
        assert(instr_is_faithful(format, regs, script[k as int]));
        lemma_shown_args(format, regs, script[k as int]);
        lemma_label_is_new(format, script, before.labels, k);
        lemma_gather_two(format, before, label, instr);
        let info = LabelInfoV { ident: label, time: instr.time, offset: before.offset };
        lemma_one_more_label(format, script, before.labels, k, info);
        assert(gather(format, 0, code, 2 * k + 1) == gather_step(format, before, code[2 * k as int]));
        assert(gather(format, 0, code, 2 * n) == gather_step(
            format,
            gather(format, 0, code, 2 * k + 1),
            code[2 * k as int + 1],
        ));
    }
}

proof fn lemma_encoded_pointwise<F: InstrFormat>(
    format: F,
    labels: Map<Seq<char>, LabelInfoV>,
    args: Seq<InstrArgV>,
    expected: Seq<InstrArgV>,
    n: nat,
)
    requires
        n <= args.len(),
        args.len() == expected.len(),
        forall|i: int|
            0 <= i < args.len() ==> encode_arg(format, labels, #[trigger] args[i]) == Ok::<
                InstrArgV,
                ErrorV,
            >(expected[i]),
    ensures
        encode_args(format, labels, args, n) == Ok::<Seq<InstrArgV>, ErrorV>(
            expected.take(n as int),
        ),
    decreases n,
{
    if n == 0 {
        assert(expected.take(0) =~= seq![]);
    } else {
        lemma_encoded_pointwise(format, labels, args, expected, (n - 1) as nat);
        assert(expected.take(n as int) =~= expected.take(n - 1).push(expected[n - 1]));
        assert(encode_arg(format, labels, args[n - 1]) == Ok::<InstrArgV, ErrorV>(expected[n - 1]));
    }
}

proof fn lemma_encoded_instr<F: InstrFormat>(
    format: F,
    regs: RegsAndInstrs,
    script: Seq<InstrV>,
    labels: Map<Seq<char>, LabelInfoV>,
    k: int,
)
    requires
        0 <= k < script.len(),
        script_is_faithful(format, regs, script),
        raise_stmts(format, regs, script, script.len()) is Ok,
        labels_known(format, script, labels, script.len()),
    ensures
        ({
            let args = with_label(format, regs, script[k]).args;
            encode_args(format, labels, args, args.len()) == Ok::<Seq<InstrArgV>, ErrorV>(
                without_padding(format, regs, script[k]).args,
            )
        }),
{
    lemma_raised_stmts(format, regs, script, script.len());
    let instr = script[k];
    lemma_shown_args(format, regs, instr);
    let args = with_label(format, regs, instr).args;
    let expected = without_padding(format, regs, instr).args;
    assert forall|i: int| 0 <= i < args.len() implies encode_arg(
        format,
        labels,
        #[trigger] args[i],
    ) == Ok::<InstrArgV, ErrorV>(expected[i]) by {
        assert(expected[i] == instr.args[i]);
        assert(instr.args[i] is Raw);
        if label_arg(format, instr.opcode) == Some(i) {
            let target = format.decode_label_spec(instr.args[i]->Raw_0.bits);
            assert(goes_to_instr(format, script, instr));
            let j = choose|j: int|
                0 <= j < script.len() && #[trigger] offset_of(format, script, j as nat) == target;
            assert(label_name(format, script, j) == default_label(target).value);
            assert(labels.contains_key(label_name(format, script, j)));
        } else {
            assert(args[i] == expected[i]);
        }
    }
    lemma_encoded_pointwise(format, labels, args, expected, args.len());
    assert(expected.take(args.len() as int) =~= expected);
}

proof fn lemma_encoded_code<F: InstrFormat>(
    format: F,
    regs: RegsAndInstrs,
    script: Seq<InstrV>,
    labels: Map<Seq<char>, LabelInfoV>,
    n: nat,
)
    requires
        n <= script.len(),
        script_is_faithful(format, regs, script),
        raise_stmts(format, regs, script, script.len()) is Ok,
        labels_known(format, script, labels, script.len()),
    ensures
        encode_stmts(format, labels, low_code(format, regs, script, script.len()), 2 * n) == (
            final_code(format, regs, script, n),
            Seq::<ErrorV>::empty(),
        ),
    decreases n,
{
    if n > 0 {
        lemma_encoded_code(format, regs, script, labels, (n - 1) as nat);
        lemma_low_code(format, regs, script, script.len());
        let code = low_code(format, regs, script, script.len());
        let k = n - 1;
        assert(code[2 * k] is Label);
        assert(code[2 * k + 1] == LowV::Instr(with_label(format, regs, script[k])));
        lemma_encoded_instr(format, regs, script, labels, k);
        let mid = encode_stmts(format, labels, code, (2 * k + 1) as nat);
        let done = encode_stmts(format, labels, code, (2 * k + 2) as nat);
        assert(mid.1 == Seq::<ErrorV>::empty());
        assert(done.0 == final_code(format, regs, script, n));
    }
}

proof fn lemma_assigned_raw(
    vars: Seq<VarInfoV>,
    held: Seq<Held>,
    args: Seq<InstrArgV>,
    n: nat,
)
    requires
        n <= args.len(),
        all_raw(args),
    ensures
        assign_args(vars, held, args, n) == Ok::<Seq<InstrArgV>, ErrorV>(args.take(n as int)),
    decreases n,
{
    if n == 0 {
        assert(args.take(0) =~= seq![]);
    } else {
        lemma_assigned_raw(vars, held, args, (n - 1) as nat);
        assert(args[n - 1] is Raw);
        assert(args.take(n as int) =~= args.take(n - 1).push(args[n - 1]));
    }
}

/// Code that needs no registers is left as it is.
proof fn lemma_assigned_code(cx: RegCx, code: Seq<LowV>, n: nat)
    requires
        n <= code.len(),
        forall|i: int|
            0 <= i < code.len() ==> ((#[trigger] code[i]) is Label || code[i] is Instr && all_raw(
                code[i]->Instr_0.args,
            )),
    ensures
        assign_stmts(cx, code, n) == Ok::<(RegSt, Seq<LowV>), ErrorV>(
            (cx.start(), code.take(n as int)),
        ),
    decreases n,
{
    if n == 0 {
        assert(code.take(0) =~= seq![]);
    } else {
        lemma_assigned_code(cx, code, (n - 1) as nat);
        assert(code[n - 1] is Label || code[n - 1] is Instr);
        if let LowV::Instr(instr) = code[n - 1] {
            lemma_assigned_raw(cx.vars, cx.start().held, instr.args, instr.args.len());
            assert(instr.args.take(instr.args.len() as int) =~= instr.args);
        }
        assert(code.take(n as int) =~= code.take(n - 1).push(code[n - 1]));
    }
}

proof fn lemma_final_instrs<F: InstrFormat>(
    format: F,
    regs: RegsAndInstrs,
    script: Seq<InstrV>,
    n: nat,
)
    requires
        n <= script.len(),
    ensures
        instrs_only(final_code(format, regs, script, n)) == script_without_padding(
            format,
            regs,
            script,
        ).take(n as int),
    decreases n,
{
    let all = script_without_padding(format, regs, script);
    if n == 0 {
        assert(all.take(0) =~= seq![]);
    } else {
        lemma_final_instrs(format, regs, script, (n - 1) as nat);
        let code = final_code(format, regs, script, n);
        let before = final_code(format, regs, script, (n - 1) as nat);
        assert(code.drop_last().drop_last() =~= before);
        reveal_with_fuel(instrs_only, 3);
        assert(all.take(n as int) =~= all.take(n - 1).push(all[n - 1]));
    }
}

/// A script that is raised to statements and lowered again is the same script, but for zeros at the
/// end of an instruction that a script does not show.
pub proof fn law_raised_script_is_lowered_back<F: InstrFormat>(
    format: F,
    regs: RegsAndInstrs,
    vars: Seq<VarInfoV>,
    script: Seq<InstrV>,
)
    requires
        script_is_faithful(format, regs, script),
    ensures
        raise_stmts(format, regs, script, script.len()) matches Ok((stmts, _)) ==> lower_script(
            regs,
            format,
            vars,
            stmts,
        ) == (
            vars,
            Ok::<Seq<InstrV>, Seq<ErrorV>>(script_without_padding(format, regs, script)),
        ),
{
    if let Ok((stmts, _)) = raise_stmts(format, regs, script, script.len()) {
        let n = script.len();
        lemma_raised_stmts(format, regs, script, n);
        lemma_lowered_stmts(format, regs, vars, script, stmts, n);
        let code = low_code(format, regs, script, n);
        lemma_low_code(format, regs, script, n);
        lemma_gathered_labels(format, regs, script, n);
        let labels = gather(format, 0, code, code.len()).labels;
        assert(gather_label_info_spec(format, 0, code) == Ok::<
            Map<Seq<char>, LabelInfoV>,
            Seq<ErrorV>,
        >(labels));
        lemma_encoded_code(format, regs, script, labels, n);
        let done = final_code(format, regs, script, n);
        assert(encode_labels_spec(format, 0, code) == Ok::<Seq<LowV>, Seq<ErrorV>>(done));
        assert forall|i: int| 0 <= i < done.len() implies ((#[trigger] done[i]) is Label
            || done[i] is Instr && all_raw(done[i]->Instr_0.args)) by {
            let k = i / 2;
            if i == 2 * k {
                assert(done[2 * k] is Label);
            } else {
                assert(i == 2 * k + 1);
                assert(done[2 * k + 1] == LowV::Instr(without_padding(format, regs, script[k])));
                lemma_shown_args(format, regs, script[k]);
            }
        }
        lemma_assigned_code(reg_cx(format, vars, done), done, done.len());
        assert(done.take(done.len() as int) =~= done);
        assert(assign_registers_spec(format, vars, done) == Ok::<Seq<LowV>, ErrorV>(done));
        lemma_final_instrs(format, regs, script, n);
        let all = script_without_padding(format, regs, script);
        assert(all.take(n as int) =~= all);
    }
}

} // verus!
