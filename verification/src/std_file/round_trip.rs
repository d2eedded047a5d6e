//! Decompiling a STD file and compiling the script gives the file back.

use crate::binary_io::{take_u32, u32_bytes};
use crate::error::ErrorV;
use crate::float32::F32;
use crate::instr::format::{
    args_bytes, instrs_bytes, lemma_args_bytes_push, take_args, take_instrs, InstrFormat,
};
use crate::instr::raise::{args_to_exprs, raise_instr_spec, raise_stmts, trimmed_len};
use crate::instr::round_trip::{
    instr_is_faithful, kind_of, law_raised_script_is_lowered_back, lemma_shown_args,
    script_is_faithful, script_without_padding, shown_args, with_label, without_padding,
};
use crate::instr::{
    effective_pairs, intrinsic_of, without_kind, InstrArgV, InstrV, IntrinsicInstrKind, RawArg,
};
use crate::meta::{is_literal, literal_fields, literal_meta, literal_metas, FieldsV};
use crate::passes::compile_loop::{
    loop_block, loop_body, loop_item, loop_items, loop_parts, loop_stmts, unroll, unroll_all,
    LoopSt,
};
use crate::passes::const_simplify::{
    simp_block, simp_body, simp_expr, simp_exprs, simp_fields, simp_item, simp_items, simp_meta,
    simp_metas, FloatOp, SimpSt,
};
use crate::passes::resolve_vars::{
    initial_state, res_block, res_body, res_expr, res_exprs, res_fields, res_item, res_items,
    res_meta, res_metas, res_stmts, ResSt,
};
use crate::pos::{sp_null, Sp};
use crate::scope::VarInfoV;
use crate::script::{BodyV, ExprV, ItemV, MetaKeyword, MetaV, ScriptV, StmtV};
use crate::std_file::binary::std_bytes;
use crate::std_file::compile::{
    compile_spec, decompile_spec, find_parts, front_end, script_parts, FailureV, Outcome,
};
use crate::std_file::format::{
    header_bytes, take_header, zero_dwords, FileFormat, FileFormat06, FileFormat10, InstrFormat06,
    InstrFormat10,
};
use crate::std_file::meta::{
    law_file_meta_round_trip, lemma_file_meta_is_literal, make_meta_spec, meta_valid,
};
use crate::std_file::StdFileV;
use crate::type_system::{auto_signature, ArgEncoding, RegsAndInstrs};
use vstd::prelude::*;

verus! {

type Floats = Seq<(FloatOp, F32)>;

// =============================================================================
// Literals are left as they are

proof fn lemma_literal_expr(table: Floats, st: SimpSt, res: ResSt, e: Sp<ExprV>)
    requires
        is_literal(e.value),
    ensures
        simp_expr(table, st, e) == (e, st),
        res_expr(res, e) == (e, res),
{
}

proof fn lemma_literal_exprs(table: Floats, st: SimpSt, res: ResSt, es: Seq<Sp<ExprV>>, n: nat)
    requires
        n <= es.len(),
        forall|i: int| 0 <= i < es.len() ==> is_literal((#[trigger] es[i]).value),
    ensures
        simp_exprs(table, st, es, n) == (es.take(n as int), st),
        res_exprs(res, es, n) == (es.take(n as int), res),
    decreases n,
{
    if n == 0 {
        assert(es.take(0) =~= seq![]);
    } else {
        lemma_literal_exprs(table, st, res, es, (n - 1) as nat);
        assert(is_literal(es[n - 1].value));
        lemma_literal_expr(table, st, res, es[n - 1]);
        assert(es.take(n as int) =~= es.take(n - 1).push(es[n - 1]));
    }
}

proof fn lemma_keep_meta(table: Floats, st: SimpSt, res: ResSt, m: Sp<MetaV>)
    requires
        literal_meta(m),
    ensures
        simp_meta(table, st, m) == (m, st),
        res_meta(res, m) == (m, res),
    decreases m, 0nat,
{
    match m.value {
        MetaV::Scalar(e) => lemma_literal_expr(table, st, res, e),
        MetaV::Array(items) => {
            lemma_keep_metas(table, st, res, items, items.len());
            assert(items.take(items.len() as int) =~= items);
        },
        MetaV::Object(fields) => {
            lemma_keep_fields(table, st, res, fields.value, fields.value.len());
            assert(fields.value.take(fields.value.len() as int) =~= fields.value);
        },
        MetaV::Variant { fields, .. } => {
            lemma_keep_fields(table, st, res, fields.value, fields.value.len());
            assert(fields.value.take(fields.value.len() as int) =~= fields.value);
        },
    }
}

proof fn lemma_keep_metas(table: Floats, st: SimpSt, res: ResSt, items: Seq<Sp<MetaV>>, n: nat)
    requires
        n <= items.len(),
        literal_metas(items, n),
    ensures
        simp_metas(table, st, items, n) == (items.take(n as int), st),
        res_metas(res, items, n) == (items.take(n as int), res),
    decreases items, n,
{
    if n == 0 {
        assert(items.take(0) =~= seq![]);
    } else {
        lemma_keep_metas(table, st, res, items, (n - 1) as nat);
        lemma_keep_meta(table, st, res, items[n - 1]);
        assert(items.take(n as int) =~= items.take(n - 1).push(items[n - 1]));
    }
}

proof fn lemma_keep_fields(table: Floats, st: SimpSt, res: ResSt, fields: FieldsV, n: nat)
    requires
        n <= fields.len(),
        literal_fields(fields, n),
    ensures
        simp_fields(table, st, fields, n) == (fields.take(n as int), st),
        res_fields(res, fields, n) == (fields.take(n as int), res),
    decreases fields, n,
{
    if n == 0 {
        assert(fields.take(0) =~= seq![]);
    } else {
        lemma_keep_fields(table, st, res, fields, (n - 1) as nat);
        lemma_keep_meta(table, st, res, fields[n - 1].1);
        assert(fields.take(n as int) =~= fields.take(n - 1).push(fields[n - 1]));
    }
}

/// Whether a statement is a jump, an interrupt label, or a call with literals as arguments.
spec fn plain_body(body: BodyV) -> bool {
    match body {
        BodyV::Jump(_) => true,
        BodyV::InterruptLabel(_) => true,
        BodyV::Expr(e) => match e.value {
            ExprV::Call { args, .. } => forall|i: int|
                0 <= i < args.len() ==> is_literal((#[trigger] args[i]).value),
            _ => false,
        },
        _ => false,
    }
}

proof fn lemma_keep_body(table: Floats, st: SimpSt, res: ResSt, lp: LoopSt, body: Sp<BodyV>)
    requires
        plain_body(body.value),
    ensures
        simp_body(table, st, body) == (body, st),
        res_body(res, body) == (body, res),
        loop_body(lp, body) == (body, lp),
        loop_parts(body.value) is None,
{
    if let BodyV::Expr(e) = body.value {
        if let ExprV::Call { args, .. } = e.value {
            lemma_literal_exprs(table, st, res, args, args.len());
            assert(args.take(args.len() as int) =~= args);
            assert(simp_expr(table, st, e) == (e, st));
            assert(res_expr(res, e) == (e, res));
        }
    }
}

spec fn plain_code(code: Seq<Sp<StmtV>>) -> bool {
    forall|i: int| 0 <= i < code.len() ==> plain_body((#[trigger] code[i]).value.body.value)
}

proof fn lemma_keep_stmts(
    table: Floats,
    st: SimpSt,
    res: ResSt,
    lp: LoopSt,
    code: Seq<Sp<StmtV>>,
    n: nat,
)
    requires
        n <= code.len(),
        plain_code(code),
    ensures
        simp_block(table, st, code, n) == (code.take(n as int), st),
        res_stmts(res, code, n) == (code.take(n as int), res),
        loop_stmts(lp, code, n) == (code.take(n as int), lp),
        unroll_all(lp, code, n) == (code.take(n as int), lp),
    decreases n,
{
    if n == 0 {
        assert(code.take(0) =~= seq![]);
    } else {
        lemma_keep_stmts(table, st, res, lp, code, (n - 1) as nat);
        let stmt = code[n - 1];
        assert(plain_body(stmt.value.body.value));
        lemma_keep_body(table, st, res, lp, stmt.value.body);
        assert(code.take(n as int) =~= code.take(n - 1).push(stmt));
        assert(code.take(n - 1) + seq![stmt] =~= code.take(n as int));
        assert(unroll(lp, stmt) == (seq![stmt], lp));
    }
}

// =============================================================================
// Scripts

/// The script of a file: its `meta` section and its code.
spec fn file_script(mapfiles: Seq<Sp<Seq<char>>>, fields: FieldsV, code: Seq<Sp<StmtV>>) -> ScriptV {
    ScriptV {
        mapfiles,
        items: seq![
            sp_null(
                ItemV::Meta {
                    keyword: sp_null(MetaKeyword::Meta),
                    name: None,
                    fields: sp_null(fields),
                },
            ),
            sp_null(ItemV::AnmScript { number: None, name: sp_null("main"@), code }),
        ],
    }
}

/// The passes before code generation have nothing to do on such a script.
proof fn lemma_front_end(
    regs: RegsAndInstrs,
    vars: Seq<VarInfoV>,
    next: u64,
    table: Floats,
    mapfiles: Seq<Sp<Seq<char>>>,
    fields: FieldsV,
    code: Seq<Sp<StmtV>>,
)
    requires
        literal_fields(fields, fields.len()),
        plain_code(code),
    ensures
        front_end(regs, vars, next, table, file_script(mapfiles, fields, code)) == (Outcome {
            vars: initial_state(regs).vars,
            next,
            result: Ok::<ScriptV, FailureV>(file_script(mapfiles, fields, code)),
        }),
{
    let script = file_script(mapfiles, fields, code);
    let items = script.items;
    let st = SimpSt { errors: seq![], pending: seq![] };
    let res = initial_state(regs);
    let lp = LoopSt { next, errors: seq![] };
    lemma_keep_fields(table, st, res, fields, fields.len());
    lemma_keep_stmts(table, st, res, lp, code, code.len());
    assert(fields.take(fields.len() as int) =~= fields);
    assert(code.take(code.len() as int) =~= code);
    reveal_with_fuel(simp_items, 3);
    reveal_with_fuel(res_items, 3);
    reveal_with_fuel(loop_items, 3);
    assert(simp_item(table, st, items[0]) == (items[0], st));
    assert(simp_item(table, st, items[1]) == (items[1], st));
    assert(simp_items(table, st, items, 2).0 =~= items);
    assert(res_item(res, items[0]) == (items[0], res));
    assert(res_block(res, code) == (code, res));
    assert(res_item(res, items[1]) == (items[1], res));
    assert(res_items(res, items, 2).0 =~= items);
    assert(loop_item(lp, items[0]) == (items[0], lp));
    assert(loop_block(lp, code) == (code, lp));
    assert(loop_item(lp, items[1]) == (items[1], lp));
    assert(loop_items(lp, items, 2).0 =~= items);
}

proof fn lemma_parts(mapfiles: Seq<Sp<Seq<char>>>, fields: FieldsV, code: Seq<Sp<StmtV>>)
    ensures
        script_parts(file_script(mapfiles, fields, code)) == Ok::<
            (Sp<FieldsV>, Seq<Sp<StmtV>>),
            ErrorV,
        >((sp_null(fields), code)),
{
    let items = file_script(mapfiles, fields, code).items;
    reveal_with_fuel(find_parts, 3);
    assert(items.len() == 2);
    assert(find_parts(items, 1) is Ok);
}

// =============================================================================
// Code

/// Whether an instruction has no registers among its arguments, and is a jump, an interrupt label
/// or a call.
pub open spec fn plain_instr<F: InstrFormat>(format: F, instr: InstrV) -> bool {
    &&& match kind_of(format, instr.opcode) {
        None => true,
        Some(IntrinsicInstrKind::Jmp) => true,
        Some(IntrinsicInstrKind::InterruptLabel) => true,
        Some(IntrinsicInstrKind::TransOp(_)) => true,
        Some(_) => false,
    }
    &&& forall|i: int| 0 <= i < instr.args.len() ==> !(#[trigger] instr.args[i])->Raw_0.is_var
}

pub open spec fn plain_script<F: InstrFormat>(format: F, script: Seq<InstrV>) -> bool {
    forall|i: int| 0 <= i < script.len() ==> plain_instr(format, #[trigger] script[i])
}

proof fn lemma_plain_args(
    regs: RegsAndInstrs,
    encodings: Seq<ArgEncoding>,
    args: Seq<InstrArgV>,
    n: nat,
)
    requires
        n <= args.len(),
        forall|i: int| 0 <= i < args.len() ==> !(#[trigger] args[i])->Raw_0.is_var,
    ensures
        args_to_exprs(regs, encodings, args, n) matches Ok(es) ==> es.len() == n && forall|i: int|
            0 <= i < n ==> is_literal((#[trigger] es[i]).value),
    decreases n,
{
    if n > 0 {
        lemma_plain_args(regs, encodings, args, (n - 1) as nat);
        assert(!args[n - 1]->Raw_0.is_var);
    }
}

proof fn lemma_trimmed_le(encodings: Seq<ArgEncoding>, args: Seq<InstrArgV>, n: nat)
    ensures
        trimmed_len(encodings, args, n) <= n,
    decreases n,
{
    if n > 0 {
        lemma_trimmed_le(encodings, args, (n - 1) as nat);
    }
}

proof fn lemma_plain_stmt<F: InstrFormat>(format: F, regs: RegsAndInstrs, instr: InstrV)
    requires
        plain_instr(format, instr),
    ensures
        raise_instr_spec(format, regs, effective_pairs(format.pairs_spec()), instr) matches Ok(body)
            ==> plain_body(body),
{
    let signature = match regs.ins_signature_spec(instr.opcode) {
        Some(s) => s,
        None => auto_signature(instr.args.len()),
    };
    lemma_plain_args(regs, signature, instr.args, instr.args.len());
    lemma_trimmed_le(signature, instr.args, instr.args.len());
}

proof fn lemma_plain_code<F: InstrFormat>(
    format: F,
    regs: RegsAndInstrs,
    script: Seq<InstrV>,
    n: nat,
)
    requires
        n <= script.len(),
        plain_script(format, script),
    ensures
        raise_stmts(format, regs, script, n) matches Ok((code, _)) ==> plain_code(code),
    decreases n,
{
    if n > 0 {
        lemma_plain_code(format, regs, script, (n - 1) as nat);
        assert(plain_instr(format, script[n - 1]));
        lemma_plain_stmt(format, regs, script[n - 1]);
    }
}

/// A file that is decompiled to a script and compiled again is the same file, but for zeros at the
/// end of an instruction that a script does not show.
pub proof fn law_decompiled_file_is_compiled_back<F: FileFormat>(
    format: F,
    regs: RegsAndInstrs,
    vars: Seq<VarInfoV>,
    next: u64,
    floats: Seq<(FloatOp, F32)>,
    x: StdFileV,
)
    requires
        meta_valid(format, x),
        script_is_faithful(format.instr_format_spec(), regs, x.script),
        plain_script(format.instr_format_spec(), x.script),
    ensures
        decompile_spec(format, regs, x) matches Ok(script) ==> compile_spec(
            format,
            regs,
            vars,
            next,
            floats,
            script,
        ).result == Ok::<StdFileV, FailureV>(
            StdFileV {
                script: script_without_padding(format.instr_format_spec(), regs, x.script),
                ..x
            },
        ),
{
    if let Ok(script) = decompile_spec(format, regs, x) {
        let instrs = format.instr_format_spec();
        let code = raise_stmts(instrs, regs, x.script, x.script.len())->Ok_0.0;
        let mapfiles = regs.mapfiles@.map_values(|f: String| sp_null(f@));
        let fields = make_meta_spec(format, x);
        assert(script == file_script(mapfiles, fields, code));
        lemma_file_meta_is_literal(format, x);
        lemma_plain_code(instrs, regs, x.script, x.script.len());
        lemma_front_end(regs, vars, next, floats, mapfiles, fields, code);
        lemma_parts(mapfiles, fields, code);
        law_file_meta_round_trip(format, x);
        law_raised_script_is_lowered_back(instrs, regs, initial_state(regs).vars, x.script);
    }
}

// =============================================================================
// Bytes

proof fn lemma_trimmed_are_zero(encodings: Seq<ArgEncoding>, args: Seq<InstrArgV>, n: nat)
    ensures
        forall|i: int|
            trimmed_len(encodings, args, n) <= i < n ==> (#[trigger] args[i])->Raw_0.bits == 0,
    decreases n,
{
    if n > 0 {
        lemma_trimmed_are_zero(encodings, args, (n - 1) as nat);
    }
}

/// The arguments that a script does not show are zero.
proof fn lemma_hidden_are_zero<F: InstrFormat>(format: F, regs: RegsAndInstrs, instr: InstrV)
    requires
        plain_instr(format, instr),
        raise_instr_spec(format, regs, effective_pairs(format.pairs_spec()), instr) is Ok,
    ensures
        forall|i: int|
            shown_args(format, regs, instr) <= i < instr.args.len() ==> (
            #[trigger] instr.args[i])->Raw_0.bits == 0,
{
    if let Some(encodings) = regs.ins_signature_spec(instr.opcode) {
        lemma_trimmed_are_zero(encodings, instr.args, instr.args.len());
    }
}

proof fn lemma_zero_first(n: nat)
    ensures
        zero_dwords(n + 1) == u32_bytes(0) + zero_dwords(n),
    decreases n,
{
    if n > 0 {
        lemma_zero_first((n - 1) as nat);
        assert(zero_dwords(n + 1) == zero_dwords(n) + u32_bytes(0));
        assert((u32_bytes(0) + zero_dwords((n - 1) as nat)) + u32_bytes(0) =~= u32_bytes(0) + (
        zero_dwords((n - 1) as nat) + u32_bytes(0)));
    } else {
        assert(zero_dwords(1) == zero_dwords(0) + u32_bytes(0));
        assert(zero_dwords(0) =~= seq![]);
        assert(zero_dwords(1) =~= u32_bytes(0) + zero_dwords(0));
    }
}

/// Zeros at the end of the arguments are the same bytes as padding.
proof fn lemma_padded_bytes(args: Seq<InstrArgV>, k: nat, n: nat)
    requires
        k <= args.len() <= n,
        forall|i: int| k <= i < args.len() ==> (#[trigger] args[i])->Raw_0.bits == 0,
    ensures
        args_bytes(args.take(k as int)) + zero_dwords((n - k) as nat) == args_bytes(args)
            + zero_dwords((n - args.len()) as nat),
    decreases args.len() - k,
{
    if k == args.len() {
        assert(args.take(k as int) =~= args);
    } else {
        lemma_padded_bytes(args, k + 1, n);
        assert(args.take((k + 1) as int) =~= args.take(k as int).push(args[k as int]));
        lemma_args_bytes_push(args.take(k as int), args[k as int]);
        lemma_zero_first((n - k - 1) as nat);
        let rest = zero_dwords((n - k - 1) as nat);
        assert((args_bytes(args.take(k as int)) + u32_bytes(0)) + rest =~= args_bytes(
            args.take(k as int),
        ) + (u32_bytes(0) + rest));
    }
}

/// Instructions of a fixed size have the same bytes without the zeros that a script does not show.
proof fn lemma_bytes_without_padding(
    format: InstrFormat06,
    regs: RegsAndInstrs,
    script: Seq<InstrV>,
    n: nat,
)
    requires
        n <= script.len(),
        script_is_faithful(format, regs, script),
        plain_script(format, script),
        raise_stmts(format, regs, script, n) is Ok,
        forall|i: int| 0 <= i < script.len() ==> (#[trigger] script[i]).args.len() <= 3,
    ensures
        instrs_bytes(format, script_without_padding(format, regs, script).take(n as int))
            == instrs_bytes(format, script.take(n as int)),
    decreases n,
{
    let shown = script_without_padding(format, regs, script);
    if n == 0 {
        assert(shown.take(0) =~= script.take(0));
    } else {
        lemma_bytes_without_padding(format, regs, script, (n - 1) as nat);
        let instr = script[n - 1];
        assert(instr_is_faithful(format, regs, instr));
        assert(plain_instr(format, instr));
        lemma_shown_args(format, regs, instr);
        lemma_hidden_are_zero(format, regs, instr);
        let k = shown_args(format, regs, instr);
        lemma_padded_bytes(instr.args, k, 3);
        assert(shown.take(n as int).drop_last() =~= shown.take(n - 1));
        assert(script.take(n as int).drop_last() =~= script.take(n - 1));
        assert(shown.take(n as int).last() == without_padding(format, regs, instr));
        assert(instr.args.len() <= 3);
        let header = header_bytes(instr.time, instr.opcode, 12);
        assert(format.instr_bytes(instr) =~= header + (args_bytes(instr.args) + zero_dwords(
            (3 - instr.args.len()) as nat,
        )));
        let cut = without_padding(format, regs, instr);
        assert(format.instr_bytes(cut) =~= header + (args_bytes(cut.args) + zero_dwords(
            (3 - k) as nat,
        )));
    }
}

/// Whether only jumps and interrupt labels have opcodes.
spec fn plain_pairs(pairs: Seq<(IntrinsicInstrKind, u16)>) -> bool {
    forall|i: int|
        0 <= i < pairs.len() ==> ((#[trigger] pairs[i]).0 is Jmp || pairs[i].0 is InterruptLabel)
}

proof fn lemma_plain_without(pairs: Seq<(IntrinsicInstrKind, u16)>, kind: IntrinsicInstrKind)
    requires
        plain_pairs(pairs),
    ensures
        plain_pairs(without_kind(pairs, kind)),
    decreases pairs.len(),
{
    reveal(Seq::filter);
    if pairs.len() > 0 {
        let init = pairs.drop_last();
        assert forall|i: int| 0 <= i < init.len() implies ((#[trigger] init[i]).0 is Jmp
            || init[i].0 is InterruptLabel) by {
            assert(init[i] == pairs[i]);
        }
        lemma_plain_without(init, kind);
        assert(pairs.last() == pairs[pairs.len() - 1]);
    }
}

proof fn lemma_plain_effective(pairs: Seq<(IntrinsicInstrKind, u16)>)
    requires
        plain_pairs(pairs),
    ensures
        plain_pairs(effective_pairs(pairs)),
    decreases pairs.len(),
{
    if pairs.len() > 0 {
        let init = pairs.drop_last();
        assert forall|i: int| 0 <= i < init.len() implies ((#[trigger] init[i]).0 is Jmp
            || init[i].0 is InterruptLabel) by {
            assert(init[i] == pairs[i]);
        }
        lemma_plain_effective(init);
        lemma_plain_without(effective_pairs(init), pairs.last().0);
        assert(pairs.last() == pairs[pairs.len() - 1]);
    }
}

proof fn lemma_plain_kind(pairs: Seq<(IntrinsicInstrKind, u16)>, opcode: u16)
    requires
        plain_pairs(pairs),
    ensures
        intrinsic_of(pairs, opcode) matches Some(kind) ==> kind is Jmp || kind is InterruptLabel,
    decreases pairs.len(),
{
    if pairs.len() > 0 {
        let init = pairs.drop_last();
        assert forall|i: int| 0 <= i < init.len() implies ((#[trigger] init[i]).0 is Jmp
            || init[i].0 is InterruptLabel) by {
            assert(init[i] == pairs[i]);
        }
        lemma_plain_kind(init, opcode);
        assert(pairs.last() == pairs[pairs.len() - 1]);
    }
}

proof fn lemma_no_registers(s: Seq<u8>, n: nat)
    ensures
        take_args(s, n, 0) matches Ok((args, _)) ==> args.len() == n && forall|i: int|
            0 <= i < args.len() ==> !(#[trigger] args[i])->Raw_0.is_var,
    decreases n,
{
    if n > 0 {
        if let Ok((bits, rest)) = take_u32(s) {
            lemma_no_registers(rest, (n - 1) as nat);
            if let Ok((args, _)) = take_args(rest, (n - 1) as nat, 0) {
                let first = seq![InstrArgV::Raw(RawArg { bits, is_var: false })];
                assert forall|i: int| 0 <= i < n implies !(#[trigger] (first
                    + args)[i])->Raw_0.is_var by {
                    if i > 0 {
                        assert((first + args)[i] == args[i - 1]);
                    }
                }
            }
        }
    }
}

/// Early games: the scripts of files have nothing but jumps, interrupt labels and calls with three
/// arguments, none of which is a register.
pub proof fn law_read_script_is_plain_06(
    format: InstrFormat06,
    s: Seq<u8>,
    done: Seq<InstrV>,
    offset: nat,
    end_offset: Option<usize>,
)
    requires
        plain_script(format, done),
        forall|i: int| 0 <= i < done.len() ==> (#[trigger] done[i]).args.len() == 3,
    ensures
        take_instrs(format, s, done, offset, end_offset) matches Ok(script) ==> plain_script(
            format,
            script,
        ) && forall|i: int| 0 <= i < script.len() ==> (#[trigger] script[i]).args.len() == 3,
    decreases s.len(),
{
    if let Ok((Some(instr), rest)) = format.take_instr(s) {
        format.lemma_take_size(s);
        lemma_plain_effective(format.pairs_spec());
        lemma_plain_kind(effective_pairs(format.pairs_spec()), instr.opcode);
        if let Ok((_, s1)) = take_header(s) {
            lemma_no_registers(s1, 3);
        }
        let now = offset + format.instr_size_spec(instr);
        law_read_script_is_plain_06(format, rest, done.push(instr), now, end_offset);
    }
}

/// Later games: the scripts of files have nothing but jumps, interrupt labels and calls, and no
/// argument is a register.
pub proof fn law_read_script_is_plain_10(
    format: InstrFormat10,
    s: Seq<u8>,
    done: Seq<InstrV>,
    offset: nat,
    end_offset: Option<usize>,
)
    requires
        plain_script(format, done),
    ensures
        take_instrs(format, s, done, offset, end_offset) matches Ok(script) ==> plain_script(
            format,
            script,
        ),
    decreases s.len(),
{
    if let Ok((Some(instr), rest)) = format.take_instr(s) {
        format.lemma_take_size(s);
        lemma_plain_effective(format.pairs_spec());
        lemma_plain_kind(effective_pairs(format.pairs_spec()), instr.opcode);
        if let Ok(((_, _, size), s1)) = take_header(s) {
            lemma_no_registers(s1, (((size - 8) as usize) / 4) as nat);
        }
        let now = offset + format.instr_size_spec(instr);
        law_read_script_is_plain_10(format, rest, done.push(instr), now, end_offset);
    }
}

/// Early games: a file that is decompiled to a script and compiled again has the same bytes.
pub proof fn law_recompiled_bytes_are_the_same_06(
    format: FileFormat06,
    regs: RegsAndInstrs,
    vars: Seq<VarInfoV>,
    next: u64,
    floats: Seq<(FloatOp, F32)>,
    x: StdFileV,
)
    requires
        meta_valid(format, x),
        script_is_faithful(format.instr_format_spec(), regs, x.script),
        plain_script(format.instr_format_spec(), x.script),
        forall|i: int| 0 <= i < x.script.len() ==> (#[trigger] x.script[i]).args.len() <= 3,
    ensures
        decompile_spec(format, regs, x) matches Ok(script) ==> (compile_spec(
            format,
            regs,
            vars,
            next,
            floats,
            script,
        ).result matches Ok(y) && std_bytes(format, y) == std_bytes(format, x)),
{
    if decompile_spec(format, regs, x) is Ok {
        law_decompiled_file_is_compiled_back(format, regs, vars, next, floats, x);
        let instrs = format.instr_format_spec();
        let shown = script_without_padding(instrs, regs, x.script);
        lemma_bytes_without_padding(instrs, regs, x.script, x.script.len());
        assert(shown.take(x.script.len() as int) =~= shown);
        assert(x.script.take(x.script.len() as int) =~= x.script);
    }
}

/// Later games: a file that is decompiled to a script and compiled again is the same file, with
/// the same bytes.
pub proof fn law_recompiled_bytes_are_the_same_10(
    format: FileFormat10,
    regs: RegsAndInstrs,
    vars: Seq<VarInfoV>,
    next: u64,
    floats: Seq<(FloatOp, F32)>,
    x: StdFileV,
)
    requires
        meta_valid(format, x),
        script_is_faithful(format.instr_format_spec(), regs, x.script),
        plain_script(format.instr_format_spec(), x.script),
    ensures
        decompile_spec(format, regs, x) matches Ok(script) ==> (compile_spec(
            format,
            regs,
            vars,
            next,
            floats,
            script,
        ).result matches Ok(y) && y == x && std_bytes(format, y) == std_bytes(format, x)),
{
    if decompile_spec(format, regs, x) is Ok {
        law_decompiled_file_is_compiled_back(format, regs, vars, next, floats, x);
        let instrs = format.instr_format_spec();
        let shown = script_without_padding(instrs, regs, x.script);
        assert forall|i: int| 0 <= i < x.script.len() implies #[trigger] shown[i]
            == x.script[i] by {
            let instr = x.script[i];
            assert(instr_is_faithful(instrs, regs, instr));
            lemma_raised_at(instrs, regs, x.script, x.script.len(), i);
            lemma_shown_args(instrs, regs, instr);
            assert(with_label(instrs, regs, instr).args.len() == instr.args.len());
            assert(shown[i].args =~= instr.args);
        }
        assert(shown =~= x.script);
    }
}

/// If a script can be raised, so can each of its instructions.
proof fn lemma_raised_at<F: InstrFormat>(
    format: F,
    regs: RegsAndInstrs,
    script: Seq<InstrV>,
    n: nat,
    i: int,
)
    requires
        0 <= i < n <= script.len(),
        raise_stmts(format, regs, script, n) is Ok,
    ensures
        raise_instr_spec(format, regs, effective_pairs(format.pairs_spec()), script[i]) is Ok,
    decreases n,
{
    if i < n - 1 {
        lemma_raised_at(format, regs, script, (n - 1) as nat, i);
    }
}

} // verus!
