//! Raising of instructions to statements.

use crate::float32::F32;
use crate::ident::{ins_name, Ident};
use crate::instr::format::{all_raw, InstrFormat};
use crate::instr::{
    args_view, effective_pairs, instrs_view, intrinsic_of, Instr, InstrArg, InstrArgV, InstrV,
    IntrinsicInstrKind, IntrinsicInstrs, RawArg,
};
use crate::pos::{sp, sp_null, Sp};
use crate::script::{
    body_view, expr_view, exprs_view, ident_view, label_view, lemma_exprs_view, lemma_stmts_view,
    stmt_view, stmts_view, AssignOpKind, BinopKind, BodyV, Cond, CondKeyword, CondV, Expr, ExprV,
    GotoV, LabelV, Stmt, StmtBody, StmtGoto, StmtLabel, StmtV, Var, VarV,
};
use crate::text::{decimal_spec, numbered_name};
use crate::type_system::{auto_signature, ArgEncoding, RegsAndInstrs, ScalarType, Signature};
use vstd::prelude::*;

verus! {

broadcast use vstd::std_specs::hash::group_hash_axioms;

/// What keeps an instruction from being raised.
#[derive(Debug, Copy, Clone, PartialEq, Eq, Hash, Structural)]
#[allow(inconsistent_fields)]
pub enum RaiseErrorKind {
    /// "expected {} args, got {}"
    WrongArgCount { expected: usize, actual: usize },
    /// "unsupported data in padding of intrinsic"
    PaddingData,
    /// "expected a variable, got an immediate"
    ExpectedVar,
    /// "expected an immediate, got a variable"
    ExpectedImmediate,
    /// "non-integer float variable in binary file"
    NonIntegerVar { value: F32 },
    /// "provided arg count does not match mapfile"
    SignatureMismatch { actual: usize, expected: usize },
    /// A jump goes to an offset that cannot be counted.
    LabelOutOfRange { bits: u32 },
    /// The script has more bytes than can be counted.
    ScriptTooLarge,
}

/// What was being raised.
#[derive(Debug, Copy, Clone, PartialEq, Eq, Hash, Structural)]
pub enum RaisedOp {
    Intrinsic(IntrinsicInstrKind),
    Ins(u16),
}

/// An error in raising an instruction.
#[derive(Debug, Copy, Clone, PartialEq, Eq, Hash, Structural)]
pub struct RaiseError {
    pub kind: RaiseErrorKind,
    pub op: RaisedOp,
    /// The argument in which the error was found, counted from one.
    pub arg: Option<usize>,
}

/// The label of the instruction at an offset.
pub open spec fn default_label(offset: nat) -> Sp<Seq<char>> {
    sp_null("label_"@ + decimal_spec(offset))
}

/// The register that an argument names, as a variable.
pub open spec fn arg_to_var(regs: RegsAndInstrs, raw: RawArg, ty: ScalarType) -> Result<
    VarV,
    RaiseErrorKind,
> {
    let float = F32 { bits: raw.bits };
    if !raw.is_var {
        Err(RaiseErrorKind::ExpectedVar)
    } else {
        match ty {
            ScalarType::Int => Ok(regs.reg_to_ast_spec(raw.bits as i32, ty)),
            ScalarType::Float => if !float.is_integral_spec() {
                Err(RaiseErrorKind::NonIntegerVar { value: float })
            } else {
                Ok(regs.reg_to_ast_spec(float.to_i32_spec() as i32, ty))
            },
        }
    }
}

/// An immediate as a literal.
pub open spec fn arg_to_literal(raw: RawArg, enc: ArgEncoding) -> Result<ExprV, RaiseErrorKind> {
    if raw.is_var {
        Err(RaiseErrorKind::ExpectedImmediate)
    } else {
        Ok(
            match enc {
                ArgEncoding::Padding => ExprV::LitInt { value: raw.bits as i32, hex: false },
                ArgEncoding::Dword => ExprV::LitInt { value: raw.bits as i32, hex: false },
                ArgEncoding::Color => ExprV::LitInt { value: raw.bits as i32, hex: true },
                ArgEncoding::Float => ExprV::LitFloat { value: F32 { bits: raw.bits } },
            },
        )
    }
}

/// An argument as an expression.
pub open spec fn arg_to_expr(regs: RegsAndInstrs, raw: RawArg, enc: ArgEncoding) -> Result<
    Sp<ExprV>,
    RaiseErrorKind,
> {
    if raw.is_var {
        match arg_to_var(regs, raw, enc.expected_type_spec()) {
            Ok(var) => Ok(sp_null(ExprV::Var(sp_null(var)))),
            Err(e) => Err(e),
        }
    } else {
        match arg_to_literal(raw, enc) {
            Ok(e) => Ok(sp_null(e)),
            Err(e) => Err(e),
        }
    }
}

/// An immediate integer.
pub open spec fn arg_to_int(raw: RawArg) -> Result<i32, RaiseErrorKind> {
    if raw.is_var {
        Err(RaiseErrorKind::ExpectedImmediate)
    } else {
        Ok(raw.bits as i32)
    }
}

/// A jump to the label that an argument stands for.
pub open spec fn arg_to_goto<F: InstrFormat>(format: F, raw: RawArg, time: Option<i32>) -> Result<
    GotoV,
    RaiseErrorKind,
> {
    if !format.decodable(raw.bits) {
        Err(RaiseErrorKind::LabelOutOfRange { bits: raw.bits })
    } else {
        Ok(GotoV { destination: default_label(format.decode_label_spec(raw.bits)), time })
    }
}

/// The number of arguments that remain when zero padding is dropped from the end.
pub open spec fn trimmed_len(encodings: Seq<ArgEncoding>, args: Seq<InstrArgV>, n: nat) -> nat
    decreases n,
{
    if n == 0 || encodings[n - 1] != ArgEncoding::Padding || args[n - 1]->Raw_0.bits != 0 {
        n
    } else {
        trimmed_len(encodings, args, (n - 1) as nat)
    }
}

/// The first `n` arguments as expressions; an error comes with the number of its argument.
pub open spec fn args_to_exprs(
    regs: RegsAndInstrs,
    encodings: Seq<ArgEncoding>,
    args: Seq<InstrArgV>,
    n: nat,
) -> Result<Seq<Sp<ExprV>>, (RaiseErrorKind, Option<usize>)>
    decreases n,
{
    if n == 0 {
        Ok(seq![])
    } else {
        match args_to_exprs(regs, encodings, args, (n - 1) as nat) {
            Err(e) => Err(e),
            Ok(before) => match arg_to_expr(regs, args[n - 1]->Raw_0, encodings[n - 1]) {
                Err(e) => Err((e, Some(n as usize))),
                Ok(e) => Ok(before.push(e)),
            },
        }
    }
}

/// All arguments of an instruction as expressions, without zero padding at the end.
pub open spec fn raise_args_spec(
    regs: RegsAndInstrs,
    encodings: Seq<ArgEncoding>,
    args: Seq<InstrArgV>,
) -> Result<Seq<Sp<ExprV>>, (RaiseErrorKind, Option<usize>)> {
    if args.len() != encodings.len() {
        Err(
            (
                RaiseErrorKind::SignatureMismatch {
                    actual: args.len() as usize,
                    expected: encodings.len() as usize,
                },
                None,
            ),
        )
    } else {
        match args_to_exprs(regs, encodings, args, args.len()) {
            Err(e) => Err(e),
            Ok(exprs) => Ok(exprs.take(trimmed_len(encodings, args, args.len()) as int)),
        }
    }
}

/// Whether all arguments from the `n`-th on are zero.
pub open spec fn zero_from(args: Seq<InstrArgV>, n: nat) -> bool {
    forall|i: int| n <= i < args.len() ==> (#[trigger] args[i])->Raw_0.bits == 0
}

/// `goto label @ t;`
pub open spec fn raise_jmp<F: InstrFormat>(format: F, args: Seq<InstrArgV>) -> Result<
    BodyV,
    RaiseErrorKind,
> {
    let nargs: nat = if format.jump_has_time_arg_spec() {
        2
    } else {
        1
    };
    // This one is >= because it exists in early STD where there can be padding args.
    if args.len() < nargs {
        Err(
            RaiseErrorKind::WrongArgCount { expected: nargs as usize, actual: args.len() as usize },
        )
    } else if !zero_from(args, nargs) {
        Err(RaiseErrorKind::PaddingData)
    } else if format.jump_has_time_arg_spec() {
        match arg_to_goto(format, args[0]->Raw_0, None) {
            Err(e) => Err(e),
            Ok(goto) => match arg_to_int(args[1]->Raw_0) {
                Err(e) => Err(e),
                Ok(time) => Ok(BodyV::Jump(GotoV { time: Some(time), ..goto })),
            },
        }
    } else {
        match arg_to_goto(format, args[0]->Raw_0, None) {
            Err(e) => Err(e),
            Ok(goto) => Ok(BodyV::Jump(goto)),
        }
    }
}

/// `a = b;` or `a += b;`
pub open spec fn raise_assign_op(
    regs: RegsAndInstrs,
    op: AssignOpKind,
    ty: ScalarType,
    args: Seq<InstrArgV>,
) -> Result<BodyV, RaiseErrorKind> {
    if args.len() != 2 {
        Err(RaiseErrorKind::WrongArgCount { expected: 2, actual: args.len() as usize })
    } else {
        match (
            arg_to_var(regs, args[0]->Raw_0, ty),
            arg_to_expr(regs, args[1]->Raw_0, ty.default_encoding_spec()),
        ) {
            (Err(e), _) => Err(e),
            (Ok(_), Err(e)) => Err(e),
            (Ok(var), Ok(value)) => Ok(
                BodyV::Assignment { var: sp_null(var), op: sp_null(op), value },
            ),
        }
    }
}

/// `a = b + c;`
pub open spec fn raise_binop(
    regs: RegsAndInstrs,
    op: BinopKind,
    ty: ScalarType,
    args: Seq<InstrArgV>,
) -> Result<BodyV, RaiseErrorKind> {
    let enc = ty.default_encoding_spec();
    if args.len() != 3 {
        Err(RaiseErrorKind::WrongArgCount { expected: 3, actual: args.len() as usize })
    } else {
        match (
            arg_to_var(regs, args[0]->Raw_0, ty),
            arg_to_expr(regs, args[1]->Raw_0, enc),
            arg_to_expr(regs, args[2]->Raw_0, enc),
        ) {
            (Err(e), _, _) => Err(e),
            (Ok(_), Err(e), _) => Err(e),
            (Ok(_), Ok(_), Err(e)) => Err(e),
            (Ok(var), Ok(a), Ok(b)) => Ok(
                BodyV::Assignment {
                    var: sp_null(var),
                    op: sp_null(AssignOpKind::Assign),
                    value: sp_null(ExprV::Binop(Box::new(a), sp_null(op), Box::new(b))),
                },
            ),
        }
    }
}

/// `interrupt[n]:`
pub open spec fn raise_interrupt(args: Seq<InstrArgV>) -> Result<BodyV, RaiseErrorKind> {
    // This one is >= because it exists in STD where there can be padding args.
    if args.len() < 1 {
        Err(RaiseErrorKind::WrongArgCount { expected: 1, actual: args.len() as usize })
    } else if !zero_from(args, 1) {
        Err(RaiseErrorKind::PaddingData)
    } else {
        match arg_to_int(args[0]->Raw_0) {
            Err(e) => Err(e),
            Ok(n) => Ok(BodyV::InterruptLabel(sp_null(n))),
        }
    }
}

/// `if (x--) goto label @ t;`
pub open spec fn raise_count_jmp<F: InstrFormat>(
    regs: RegsAndInstrs,
    format: F,
    args: Seq<InstrArgV>,
) -> Result<BodyV, RaiseErrorKind> {
    if args.len() != 3 {
        Err(RaiseErrorKind::WrongArgCount { expected: 3, actual: args.len() as usize })
    } else {
        match (
            arg_to_var(regs, args[0]->Raw_0, ScalarType::Int),
            arg_to_goto(format, args[1]->Raw_0, None),
            arg_to_int(args[2]->Raw_0),
        ) {
            (Err(e), _, _) => Err(e),
            (Ok(_), Err(e), _) => Err(e),
            (Ok(_), Ok(_), Err(e)) => Err(e),
            (Ok(var), Ok(goto), Ok(time)) => Ok(
                BodyV::CondJump {
                    keyword: sp_null(CondKeyword::If),
                    cond: sp_null(CondV::Decrement(sp_null(var))),
                    jump: GotoV { time: Some(time), ..goto },
                },
            ),
        }
    }
}

/// `if (a == c) goto label @ t;`
pub open spec fn raise_cond_jmp<F: InstrFormat>(
    regs: RegsAndInstrs,
    format: F,
    op: BinopKind,
    ty: ScalarType,
    args: Seq<InstrArgV>,
) -> Result<BodyV, RaiseErrorKind> {
    let enc = ty.default_encoding_spec();
    if args.len() != 4 {
        Err(RaiseErrorKind::WrongArgCount { expected: 4, actual: args.len() as usize })
    } else {
        match (
            arg_to_expr(regs, args[0]->Raw_0, enc),
            arg_to_expr(regs, args[1]->Raw_0, enc),
            arg_to_goto(format, args[2]->Raw_0, None),
            arg_to_int(args[3]->Raw_0),
        ) {
            (Err(e), _, _, _) => Err(e),
            (Ok(_), Err(e), _, _) => Err(e),
            (Ok(_), Ok(_), Err(e), _) => Err(e),
            (Ok(_), Ok(_), Ok(_), Err(e)) => Err(e),
            (Ok(a), Ok(b), Ok(goto), Ok(time)) => Ok(
                BodyV::CondJump {
                    keyword: sp_null(CondKeyword::If),
                    cond: sp_null(
                        CondV::Expr(
                            sp_null(ExprV::Binop(Box::new(a), sp_null(op), Box::new(b))),
                        ),
                    ),
                    jump: GotoV { time: Some(time), ..goto },
                },
            ),
        }
    }
}

/// `ins_23(a, b);`, or the name of the instruction in place of `ins_23`.
pub open spec fn raise_general(regs: RegsAndInstrs, opcode: u16, args: Seq<InstrArgV>) -> Result<
    BodyV,
    (RaiseErrorKind, Option<usize>),
> {
    let name = if regs.opcode_names@.contains_key(opcode) {
        regs.opcode_names@[opcode]@
    } else {
        ins_name(opcode)
    };
    let encodings = match regs.ins_signature_spec(opcode) {
        Some(s) => s,
        None => auto_signature(args.len()),
    };
    match raise_args_spec(regs, encodings, args) {
        Err(e) => Err(e),
        Ok(args) => Ok(BodyV::Expr(sp_null(ExprV::Call { func: sp_null(name), args }))),
    }
}

/// Attach to an error what was being raised.
pub open spec fn raised<T>(r: Result<T, RaiseErrorKind>, op: RaisedOp) -> Result<T, RaiseError> {
    match r {
        Ok(x) => Ok(x),
        Err(kind) => Err(RaiseError { kind, op, arg: None }),
    }
}

/// An instruction as a statement.
pub open spec fn raise_instr_spec<F: InstrFormat>(
    format: F,
    regs: RegsAndInstrs,
    pairs: Seq<(IntrinsicInstrKind, u16)>,
    instr: InstrV,
) -> Result<BodyV, RaiseError> {
    let args = instr.args;
    let kind = intrinsic_of(pairs, instr.opcode);
    match kind {
        Some(IntrinsicInstrKind::Jmp) => raised(
            raise_jmp(format, args),
            RaisedOp::Intrinsic(kind->0),
        ),
        Some(IntrinsicInstrKind::AssignOp(op, ty)) => raised(
            raise_assign_op(regs, op, ty, args),
            RaisedOp::Intrinsic(kind->0),
        ),
        Some(IntrinsicInstrKind::Binop(op, ty)) => raised(
            raise_binop(regs, op, ty, args),
            RaisedOp::Intrinsic(kind->0),
        ),
        Some(IntrinsicInstrKind::InterruptLabel) => raised(
            raise_interrupt(args),
            RaisedOp::Intrinsic(kind->0),
        ),
        Some(IntrinsicInstrKind::CountJmp) => raised(
            raise_count_jmp(regs, format, args),
            RaisedOp::Intrinsic(kind->0),
        ),
        Some(IntrinsicInstrKind::CondJmp(op, ty)) => raised(
            raise_cond_jmp(regs, format, op, ty, args),
            RaisedOp::Intrinsic(kind->0),
        ),
        // raising of these not yet implemented
        Some(IntrinsicInstrKind::TransOp(_)) | None => match raise_general(
            regs,
            instr.opcode,
            args,
        ) {
            Ok(body) => Ok(body),
            Err((k, arg)) => Err(RaiseError { kind: k, op: RaisedOp::Ins(instr.opcode), arg }),
        },
    }
}

/// The statements of the first `n` instructions, and the offset behind them.
///
/// Every instruction has a label that tells its offset.
pub open spec fn raise_stmts<F: InstrFormat>(
    format: F,
    regs: RegsAndInstrs,
    script: Seq<InstrV>,
    n: nat,
) -> Result<(Seq<Sp<StmtV>>, nat), RaiseError>
    decreases n,
{
    if n == 0 {
        Ok((seq![], 0))
    } else {
        match raise_stmts(format, regs, script, (n - 1) as nat) {
            Err(e) => Err(e),
            Ok((out, offset)) => {
                let instr = script[n - 1];
                let next = offset + format.instr_size_spec(instr);
                if next > usize::MAX {
                    Err(
                        RaiseError {
                            kind: RaiseErrorKind::ScriptTooLarge,
                            op: RaisedOp::Ins(instr.opcode),
                            arg: None,
                        },
                    )
                } else {
                    match raise_instr_spec(
                        format,
                        regs,
                        effective_pairs(format.pairs_spec()),
                        instr,
                    ) {
                        Err(e) => Err(e),
                        Ok(body) => Ok(
                            (
                                out.push(
                                    sp_null(
                                        StmtV {
                                            time: instr.time,
                                            labels: seq![
                                                sp_null(LabelV::Label(default_label(offset))),
                                            ],
                                            body: sp_null(body),
                                        },
                                    ),
                                ),
                                next,
                            ),
                        ),
                    }
                }
            },
        }
    }
}

// =============================================================================

fn default_instr_label(offset: usize) -> (r: Sp<Ident>)
    ensures
        ident_view(r) == default_label(offset as nat),
{
    sp(Ident { text: numbered_name("label_", offset as u64) })
}

fn raise_arg_to_var(raw: RawArg, ty: ScalarType, ty_ctx: &RegsAndInstrs) -> (r: Result<
    Var,
    RaiseErrorKind,
>)
    ensures
        match arg_to_var(*ty_ctx, raw, ty) {
            Ok(var) => r matches Ok(v) && v@ == var,
            Err(e) => r matches Err(k) && k == e,
        },
{
    if !raw.is_var {
        return Err(RaiseErrorKind::ExpectedVar);
    }
    let id: i32 = match ty {
        ScalarType::Int => raw.bits as i32,
        ScalarType::Float => {
            let float_id = F32::from_bits(raw.bits);
            if !float_id.is_integral() {
                return Err(RaiseErrorKind::NonIntegerVar { value: float_id });
            }
            float_id.to_i32()
        },
    };
    Ok(ty_ctx.reg_to_ast(id, ty))
}

fn raise_arg_to_literal(raw: RawArg, enc: ArgEncoding) -> (r: Result<Expr, RaiseErrorKind>)
    ensures
        match arg_to_literal(raw, enc) {
            Ok(e) => r matches Ok(x) && expr_view(sp_null(x)) == sp_null(e),
            Err(e) => r matches Err(k) && k == e,
        },
{
    if raw.is_var {
        return Err(RaiseErrorKind::ExpectedImmediate);
    }
    match enc {
        ArgEncoding::Padding | ArgEncoding::Dword => Ok(
            Expr::LitInt { value: raw.bits as i32, hex: false },
        ),
        ArgEncoding::Color => Ok(Expr::LitInt { value: raw.bits as i32, hex: true }),
        ArgEncoding::Float => Ok(Expr::LitFloat { value: F32::from_bits(raw.bits) }),
    }
}

fn raise_arg(raw: RawArg, enc: ArgEncoding, ty_ctx: &RegsAndInstrs) -> (r: Result<
    Sp<Expr>,
    RaiseErrorKind,
>)
    ensures
        match arg_to_expr(*ty_ctx, raw, enc) {
            Ok(e) => r matches Ok(x) && expr_view(x) == e,
            Err(e) => r matches Err(k) && k == e,
        },
{
    if raw.is_var {
        match raise_arg_to_var(raw, enc.expected_type(), ty_ctx) {
            Ok(var) => Ok(sp(Expr::Var(sp(var)))),
            Err(e) => Err(e),
        }
    } else {
        match raise_arg_to_literal(raw, enc) {
            Ok(e) => Ok(sp(e)),
            Err(e) => Err(e),
        }
    }
}

fn raise_int(raw: RawArg) -> (r: Result<i32, RaiseErrorKind>)
    ensures
        r == arg_to_int(raw),
{
    if raw.is_var {
        Err(RaiseErrorKind::ExpectedImmediate)
    } else {
        Ok(raw.bits as i32)
    }
}

fn raise_destination<F: InstrFormat>(format: &F, raw: RawArg) -> (r: Result<
    Sp<Ident>,
    RaiseErrorKind,
>)
    ensures
        match arg_to_goto(*format, raw, None) {
            Ok(goto) => r matches Ok(x) && ident_view(x) == goto.destination,
            Err(e) => r matches Err(k) && k == e,
        },
{
    if !format.can_decode_label(raw.bits) {
        return Err(RaiseErrorKind::LabelOutOfRange { bits: raw.bits });
    }
    Ok(default_instr_label(format.decode_label(raw.bits)))
}

/// The final value of an argument.
fn raw_arg(args: &Vec<InstrArg>, i: usize) -> (r: RawArg)
    requires
        i < args@.len(),
        all_raw(args_view(args@)),
    ensures
        r == args_view(args@)[i as int]->Raw_0,
{
    assert(args_view(args@)[i as int] is Raw);
    args[i].expect_raw()
}

fn is_zero_from(args: &Vec<InstrArg>, n: usize) -> (r: bool)
    requires
        all_raw(args_view(args@)),
    ensures
        r == zero_from(args_view(args@), n as nat),
{
    let ghost views = args_view(args@);
    let mut i: usize = n;
    while i < args.len()
        invariant
            n <= i,
            views == args_view(args@),
            all_raw(views),
            forall|j: int| n <= j < i && j < views.len() ==> (#[trigger] views[j])->Raw_0.bits == 0,
        decreases args@.len() - i,
    {
        if raw_arg(args, i).bits != 0 {
            assert(views[i as int]->Raw_0.bits != 0);
            return false;
        }
        i = i + 1;
    }
    true
}

fn raise_args(args: &Vec<InstrArg>, siggy: &Signature, ty_ctx: &RegsAndInstrs) -> (r: Result<
    Vec<Sp<Expr>>,
    (RaiseErrorKind, Option<usize>),
>)
    requires
        all_raw(args_view(args@)),
    ensures
        match raise_args_spec(*ty_ctx, siggy@, args_view(args@)) {
            Ok(es) => r matches Ok(v) && exprs_view(v@, v@.len()) == es,
            Err(e) => r matches Err(k) && k == e,
        },
{
    let ghost views = args_view(args@);
    let encodings = siggy.arg_encodings();
    if args.len() != encodings.len() {
        return Err(
            (
                RaiseErrorKind::SignatureMismatch {
                    actual: args.len(),
                    expected: encodings.len(),
                },
                None,
            ),
        );
    }
    let mut out: Vec<Sp<Expr>> = Vec::new();
    let mut i: usize = 0;
    while i < args.len()
        invariant
            i <= args@.len(),
            i == out@.len(),
            views == args_view(args@),
            all_raw(views),
            encodings@ == siggy@,
            encodings@.len() == args@.len(),
            args_to_exprs(*ty_ctx, siggy@, views, i as nat) == Ok::<
                Seq<Sp<ExprV>>,
                (RaiseErrorKind, Option<usize>),
            >(exprs_view(out@, out@.len())),
        decreases args@.len() - i,
    {
        let ghost before = out@;
        match raise_arg(raw_arg(args, i), encodings[i], ty_ctx) {
            Ok(e) => {
                out.push(e);
                proof {
                    lemma_exprs_view(before, before.len());
                    lemma_exprs_view(out@, out@.len());
                    assert(exprs_view(out@, out@.len()) =~= exprs_view(before, before.len()).push(
                        expr_view(e),
                    ));
                }
            },
            Err(e) => {
                proof {
                    lemma_args_to_exprs_stop(
                        *ty_ctx,
                        siggy@,
                        views,
                        (i + 1) as nat,
                        views.len(),
                    );
                }
                return Err((e, Some(i + 1)));
            },
        }
        i = i + 1;
    }
    // drop early STD padding args from the end as long as they're zero
    let ghost full = exprs_view(out@, out@.len());
    let mut n: usize = args.len();
    proof {
        lemma_exprs_view(out@, out@.len());
        assert(full.take(n as int) =~= full);
    }
    while n > 0 && encodings[n - 1] == ArgEncoding::Padding && raw_arg(args, n - 1).bits == 0
        invariant
            n <= args@.len(),
            n == out@.len(),
            views == args_view(args@),
            all_raw(views),
            encodings@ == siggy@,
            encodings@.len() == args@.len(),
            full.len() == args@.len(),
            exprs_view(out@, out@.len()) == full.take(n as int),
            trimmed_len(siggy@, views, views.len()) == trimmed_len(siggy@, views, n as nat),
        decreases n,
    {
        let ghost before = out@;
        out.pop();
        n = n - 1;
        proof {
            lemma_exprs_view(before, before.len());
            lemma_exprs_view(out@, out@.len());
            assert(exprs_view(out@, out@.len()) =~= full.take(n as int));
        }
    }
    Ok(out)
}

proof fn lemma_args_to_exprs_stop(
    regs: RegsAndInstrs,
    encodings: Seq<ArgEncoding>,
    args: Seq<InstrArgV>,
    m: nat,
    n: nat,
)
    requires
        m <= n,
        args_to_exprs(regs, encodings, args, m) is Err,
    ensures
        args_to_exprs(regs, encodings, args, n) == args_to_exprs(regs, encodings, args, m),
    decreases n,
{
    if m < n {
        lemma_args_to_exprs_stop(regs, encodings, args, m, (n - 1) as nat);
    }
}

/// An error of which the whole instruction is the place.
fn fail<T>(kind: RaiseErrorKind, op: RaisedOp) -> (r: Result<T, RaiseError>)
    ensures
        r == Err::<T, RaiseError>(RaiseError { kind, op, arg: None }),
{
    Err(RaiseError { kind, op, arg: None })
}

/// Raises an instruction to the statement that it stands for.
pub fn raise_instr<F: InstrFormat>(
    instr_format: &F,
    instr: &Instr,
    ty_ctx: &RegsAndInstrs,
    intrinsic_instrs: &IntrinsicInstrs,
) -> (r: Result<StmtBody, RaiseError>)
    requires
        all_raw(instr@.args),
    ensures
        match raise_instr_spec(*instr_format, *ty_ctx, intrinsic_instrs@, instr@) {
            Ok(body) => r matches Ok(x) && body_view(sp_null(x)) == sp_null(body),
            Err(e) => r matches Err(k) && k == e,
        },
{
    let opcode: u16 = instr.opcode;
    let args = &instr.args;
    assert(args_view(args@).len() == args@.len());
    let intrinsic = intrinsic_instrs.get_intrinsic(opcode);
    let op = match intrinsic {
        Some(kind) => RaisedOp::Intrinsic(kind),
        None => RaisedOp::Ins(opcode),
    };
    match intrinsic {
        Some(IntrinsicInstrKind::Jmp) => {
            let has_time: bool = instr_format.jump_has_time_arg();
            let nargs: usize = if has_time {
                2
            } else {
                1
            };
            // This one is >= because it exists in early STD where there can be padding args.
            if args.len() < nargs {
                return fail(
                    RaiseErrorKind::WrongArgCount { expected: nargs, actual: args.len() },
                    op,
                );
            }
            if !is_zero_from(args, nargs) {
                return fail(RaiseErrorKind::PaddingData, op);
            }
            let destination = match raise_destination(instr_format, raw_arg(args, 0)) {
                Ok(x) => x,
                Err(e) => return fail(e, op),
            };
            let time = if has_time {
                match raise_int(raw_arg(args, 1)) {
                    Ok(x) => Some(x),
                    Err(e) => return fail(e, op),
                }
            } else {
                None
            };
            Ok(StmtBody::Jump(StmtGoto { destination, time }))
        },
        Some(IntrinsicInstrKind::AssignOp(assign_op, ty)) => {
            if args.len() != 2 {
                return fail(
                    RaiseErrorKind::WrongArgCount { expected: 2, actual: args.len() },
                    op,
                );
            }
            let var = match raise_arg_to_var(raw_arg(args, 0), ty, ty_ctx) {
                Ok(x) => x,
                Err(e) => return fail(e, op),
            };
            let value = match raise_arg(raw_arg(args, 1), ty.default_encoding(), ty_ctx) {
                Ok(x) => x,
                Err(e) => return fail(e, op),
            };
            Ok(StmtBody::Assignment { var: sp(var), op: sp(assign_op), value })
        },
        Some(IntrinsicInstrKind::Binop(binop, ty)) => {
            if args.len() != 3 {
                return fail(
                    RaiseErrorKind::WrongArgCount { expected: 3, actual: args.len() },
                    op,
                );
            }
            let var = match raise_arg_to_var(raw_arg(args, 0), ty, ty_ctx) {
                Ok(x) => x,
                Err(e) => return fail(e, op),
            };
            let a = match raise_arg(raw_arg(args, 1), ty.default_encoding(), ty_ctx) {
                Ok(x) => x,
                Err(e) => return fail(e, op),
            };
            let b = match raise_arg(raw_arg(args, 2), ty.default_encoding(), ty_ctx) {
                Ok(x) => x,
                Err(e) => return fail(e, op),
            };
            Ok(
                StmtBody::Assignment {
                    var: sp(var),
                    op: sp(AssignOpKind::Assign),
                    value: sp(Expr::Binop(Box::new(a), sp(binop), Box::new(b))),
                },
            )
        },
        Some(IntrinsicInstrKind::InterruptLabel) => {
            // This one is >= because it exists in STD where there can be padding args.
            if args.len() < 1 {
                return fail(
                    RaiseErrorKind::WrongArgCount { expected: 1, actual: args.len() },
                    op,
                );
            }
            if !is_zero_from(args, 1) {
                return fail(RaiseErrorKind::PaddingData, op);
            }
            match raise_int(raw_arg(args, 0)) {
                Ok(n) => Ok(StmtBody::InterruptLabel(sp(n))),
                Err(e) => fail(e, op),
            }
        },
        Some(IntrinsicInstrKind::CountJmp) => {
            if args.len() != 3 {
                return fail(
                    RaiseErrorKind::WrongArgCount { expected: 3, actual: args.len() },
                    op,
                );
            }
            let var = match raise_arg_to_var(raw_arg(args, 0), ScalarType::Int, ty_ctx) {
                Ok(x) => x,
                Err(e) => return fail(e, op),
            };
            let destination = match raise_destination(instr_format, raw_arg(args, 1)) {
                Ok(x) => x,
                Err(e) => return fail(e, op),
            };
            let time = match raise_int(raw_arg(args, 2)) {
                Ok(x) => x,
                Err(e) => return fail(e, op),
            };
            Ok(
                StmtBody::CondJump {
                    keyword: sp(CondKeyword::If),
                    cond: sp(Cond::Decrement(sp(var))),
                    jump: StmtGoto { destination, time: Some(time) },
                },
            )
        },
        Some(IntrinsicInstrKind::CondJmp(binop, ty)) => {
            if args.len() != 4 {
                return fail(
                    RaiseErrorKind::WrongArgCount { expected: 4, actual: args.len() },
                    op,
                );
            }
            let a = match raise_arg(raw_arg(args, 0), ty.default_encoding(), ty_ctx) {
                Ok(x) => x,
                Err(e) => return fail(e, op),
            };
            let b = match raise_arg(raw_arg(args, 1), ty.default_encoding(), ty_ctx) {
                Ok(x) => x,
                Err(e) => return fail(e, op),
            };
            let destination = match raise_destination(instr_format, raw_arg(args, 2)) {
                Ok(x) => x,
                Err(e) => return fail(e, op),
            };
            let time = match raise_int(raw_arg(args, 3)) {
                Ok(x) => x,
                Err(e) => return fail(e, op),
            };
            Ok(
                StmtBody::CondJump {
                    keyword: sp(CondKeyword::If),
                    cond: sp(
                        Cond::Expr(sp(Expr::Binop(Box::new(a), sp(binop), Box::new(b)))),
                    ),
                    jump: StmtGoto { destination, time: Some(time) },
                },
            )
        },
        // raising of these not yet implemented
        Some(IntrinsicInstrKind::TransOp(_)) | None => {
            // Default behavior for general instructions
            let ins_ident = match ty_ctx.opcode_names.get(&opcode) {
                Some(name) => name.clone(),
                None => Ident::new_ins(opcode),
            };
            let raised = match ty_ctx.ins_signature(opcode) {
                Some(siggy) => raise_args(args, siggy, ty_ctx),
                None => raise_args(args, &Signature::auto(args.len()), ty_ctx),
            };
            match raised {
                Ok(args) => Ok(StmtBody::Expr(sp(Expr::Call { func: sp(ins_ident), args }))),
                Err((kind, arg)) => Err(RaiseError { kind, op: RaisedOp::Ins(opcode), arg }),
            }
        },
    }
}

/// Raises the instructions of a script to statements.
///
/// Every instruction gets a label; those that nothing jumps to can be stripped later.
pub fn raise_instrs_to_sub_ast<F: InstrFormat>(
    instr_format: &F,
    script: &Vec<Instr>,
    ty_ctx: &RegsAndInstrs,
) -> (r: Result<Vec<Sp<Stmt>>, RaiseError>)
    requires
        forall|i: int| 0 <= i < script@.len() ==> all_raw((#[trigger] script@[i])@.args),
    ensures
        match raise_stmts(*instr_format, *ty_ctx, instrs_view(script@), script@.len()) {
            Ok((stmts, _)) => r matches Ok(v) && stmts_view(v@, v@.len()) == stmts,
            Err(e) => r matches Err(k) && k == e,
        },
{
    let ghost views = instrs_view(script@);
    let intrinsic_instrs = instr_format.intrinsic_instrs();
    let mut offset: usize = 0;
    let mut out: Vec<Sp<Stmt>> = Vec::new();
    let mut i: usize = 0;
    while i < script.len()
        invariant
            i <= script@.len(),
            views == instrs_view(script@),
            intrinsic_instrs@ == effective_pairs(instr_format.pairs_spec()),
            forall|i: int| 0 <= i < script@.len() ==> all_raw((#[trigger] script@[i])@.args),
            raise_stmts(*instr_format, *ty_ctx, views, i as nat) == Ok::<
                (Seq<Sp<StmtV>>, nat),
                RaiseError,
            >((stmts_view(out@, out@.len()), offset as nat)),
        decreases script@.len() - i,
    {
        let instr = &script[i];
        proof {
            assert(views[i as int] == instr@);
            assert(args_view(instr.args@).len() == instr.args@.len());
            if raise_stmts(*instr_format, *ty_ctx, views, (i + 1) as nat) is Err {
                lemma_raise_stops(*instr_format, *ty_ctx, views, (i + 1) as nat, views.len());
            }
        }
        let too_large = RaiseError {
            kind: RaiseErrorKind::ScriptTooLarge,
            op: RaisedOp::Ins(instr.opcode),
            arg: None,
        };
        let end: Option<usize> = match instr_format.checked_instr_size(instr) {
            Some(size) => offset.checked_add(size),
            None => None,
        };
        let label = sp(StmtLabel::Label(default_instr_label(offset)));
        match end {
            Some(end) => {
                offset = end;
            },
            None => return Err(too_large),
        }
        let body = match raise_instr(instr_format, instr, ty_ctx, &intrinsic_instrs) {
            Ok(body) => body,
            Err(e) => return Err(e),
        };
        let ghost before = out@;
        let ghost lv = label_view(label);
        let labels = vec![label];
        assert(labels@.map_values(|l: Sp<StmtLabel>| label_view(l)) =~= seq![lv]);
        let stmt = sp(Stmt { time: instr.time, labels, body: sp(body) });
        let ghost sv = stmt_view(stmt);
        out.push(stmt);
        proof {
            lemma_stmts_view(before, before.len());
            lemma_stmts_view(out@, out@.len());
            assert(stmts_view(out@, out@.len()) =~= stmts_view(before, before.len()).push(sv));
        }
        i = i + 1;
    }
    Ok(out)
}

proof fn lemma_raise_stops<F: InstrFormat>(
    format: F,
    regs: RegsAndInstrs,
    script: Seq<InstrV>,
    m: nat,
    n: nat,
)
    requires
        m <= n,
        raise_stmts(format, regs, script, m) is Err,
    ensures
        raise_stmts(format, regs, script, n) == raise_stmts(format, regs, script, m),
    decreases n,
{
    if m < n {
        lemma_raise_stops(format, regs, script, m, (n - 1) as nat);
    }
}

} // verus!
