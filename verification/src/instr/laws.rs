//! What holds of all lowered code.

use crate::error::ErrorV;
use crate::instr::format::{all_raw, InstrFormat};
use crate::instr::labels::{
    encode_arg, encode_args, encode_labels_spec, encode_stmts, gather, gather_label_info_spec,
    gather_step, place_labels, LabelInfoV,
};
use crate::instr::lower::{instrs_only, lower_script, lower_sub_ast, LowerCx, LowerSt};
use crate::instr::registers::{
    assign_args, assign_registers_spec, assign_stmt, assign_stmts, index_of, reg_cx, select, var_ty,
    Held, RegCx, RegSt,
};
use crate::instr::{effective_pairs, InstrArgV, LowV};
use crate::pos::Sp;
use crate::scope::{VarId, VarInfoV};
use crate::script::StmtV;
use crate::type_system::{RegsAndInstrs, ScalarType};
use vstd::prelude::*;

verus! {

// =============================================================================
// Arguments

/// Whether no label is left among the arguments of a statement.
spec fn unlabelled(stmt: LowV) -> bool {
    stmt matches LowV::Instr(instr) ==> forall|i: int|
        0 <= i < instr.args.len() ==> !((#[trigger] instr.args[i]) is Label || instr.args[i] is TimeOf)
}

/// Whether nothing but plain values is left among the arguments of a statement.
spec fn finished(stmt: LowV) -> bool {
    stmt matches LowV::Instr(instr) ==> all_raw(instr.args)
}

pub proof fn lemma_encoded_args<F: InstrFormat>(
    format: F,
    labels: Map<Seq<char>, LabelInfoV>,
    args: Seq<InstrArgV>,
    n: nat,
)
    requires
        n <= args.len(),
    ensures
        encode_args(format, labels, args, n) matches Ok(out) ==> out.len() == n && forall|i: int|
            0 <= i < n ==> encode_arg(format, labels, args[i]) == Ok::<
                InstrArgV,
                ErrorV,
            >(#[trigger] out[i]),
    decreases n,
{
    if n > 0 {
        lemma_encoded_args(format, labels, args, (n - 1) as nat);
    }
}

proof fn lemma_encoded_stmts<F: InstrFormat>(
    format: F,
    labels: Map<Seq<char>, LabelInfoV>,
    code: Seq<LowV>,
    n: nat,
)
    requires
        n <= code.len(),
    ensures
        ({
            let (out, errors) = encode_stmts(format, labels, code, n);
            out.len() == n && (errors.len() == 0 ==> forall|i: int|
                0 <= i < n ==> unlabelled(#[trigger] out[i]))
        }),
    decreases n,
{
    if n > 0 {
        lemma_encoded_stmts(format, labels, code, (n - 1) as nat);
        if let LowV::Instr(instr) = code[n - 1] {
            lemma_encoded_args(format, labels, instr.args, instr.args.len());
        }
    }
}

proof fn lemma_assigned_args(
    vars: Seq<VarInfoV>,
    held: Seq<Held>,
    args: Seq<InstrArgV>,
    n: nat,
)
    requires
        n <= args.len(),
        forall|i: int|
            0 <= i < args.len() ==> !((#[trigger] args[i]) is Label || args[i] is TimeOf),
    ensures
        assign_args(vars, held, args, n) matches Ok(out) ==> out.len() == n && all_raw(out),
    decreases n,
{
    if n > 0 {
        lemma_assigned_args(vars, held, args, (n - 1) as nat);
        assert(!(args[n - 1] is Label || args[n - 1] is TimeOf));
    }
}

proof fn lemma_assigned_stmts(cx: RegCx, code: Seq<LowV>, n: nat)
    requires
        n <= code.len(),
        forall|i: int| 0 <= i < code.len() ==> unlabelled(#[trigger] code[i]),
    ensures
        assign_stmts(cx, code, n) matches Ok((_, out)) ==> out.len() == n && forall|i: int|
            0 <= i < n ==> finished(#[trigger] out[i]),
    decreases n,
{
    if n > 0 {
        lemma_assigned_stmts(cx, code, (n - 1) as nat);
        if let Ok((st, _)) = assign_stmts(cx, code, (n - 1) as nat) {
            assert(unlabelled(code[n - 1]));
            if let LowV::Instr(instr) = code[n - 1] {
                lemma_assigned_args(cx.vars, st.held, instr.args, instr.args.len());
            }
        }
    }
}

proof fn lemma_finished_instrs(code: Seq<LowV>)
    requires
        forall|i: int| 0 <= i < code.len() ==> finished(#[trigger] code[i]),
    ensures
        forall|i: int|
            0 <= i < instrs_only(code).len() ==> all_raw((#[trigger] instrs_only(code)[i]).args),
    decreases code.len(),
{
    if code.len() > 0 {
        assert forall|i: int| 0 <= i < code.drop_last().len() implies finished(
            #[trigger] code.drop_last()[i],
        ) by {
            assert(code.drop_last()[i] == code[i]);
        }
        lemma_finished_instrs(code.drop_last());
        assert(finished(code[code.len() - 1]));
        let before = instrs_only(code.drop_last());
        assert forall|i: int| 0 <= i < instrs_only(code).len() implies all_raw(
            (#[trigger] instrs_only(code)[i]).args,
        ) by {
            if i < before.len() {
                assert(instrs_only(code)[i] == before[i]);
            }
        }
    }
}

/// Whatever a script is lowered to can be written: every argument has its final value.
pub proof fn law_lowered_code_is_raw<F: InstrFormat>(
    regs: RegsAndInstrs,
    format: F,
    vars: Seq<VarInfoV>,
    code: Seq<Sp<StmtV>>,
)
    ensures
        lower_script(regs, format, vars, code).1 matches Ok(instrs) ==> forall|i: int|
            0 <= i < instrs.len() ==> all_raw((#[trigger] instrs[i]).args),
{
    if lower_script(regs, format, vars, code).1 is Ok {
        let cx = LowerCx {
            regs,
            pairs: effective_pairs(format.pairs_spec()),
        };
        let sub = lower_sub_ast(
            cx,
            format,
            LowerSt { out: seq![], vars },
            code,
            code.len(),
        );
        let low = sub.st.out;
        let labels = gather_label_info_spec(format, 0, low)->Ok_0;
        lemma_encoded_stmts(format, labels, low, low.len());
        let encoded = encode_labels_spec(format, 0, low)->Ok_0;
        lemma_assigned_stmts(reg_cx(format, sub.st.vars, encoded), encoded, encoded.len());
        let assigned = assign_registers_spec(format, sub.st.vars, encoded)->Ok_0;
        lemma_finished_instrs(assigned);
    }
}

// =============================================================================
// Labels

/// The number of bytes of the first `n` statements.
pub open spec fn size_before<F: InstrFormat>(format: F, code: Seq<LowV>, n: nat) -> nat
    decreases n,
{
    if n == 0 {
        0
    } else {
        size_before(format, code, (n - 1) as nat) + match code[n - 1] {
            LowV::Instr(instr) => format.instr_size_spec(instr),
            _ => 0,
        }
    }
}

proof fn lemma_gather_offset<F: InstrFormat>(format: F, initial: nat, code: Seq<LowV>, n: nat)
    requires
        n <= code.len(),
        gather(format, initial, code, n).errors.len() == 0,
    ensures
        gather(format, initial, code, n).offset == initial + size_before(format, code, n),
    decreases n,
{
    if n > 0 {
        lemma_gather_offset(format, initial, code, (n - 1) as nat);
    }
}

proof fn lemma_placed(
    labels: Map<Seq<char>, LabelInfoV>,
    pending: Seq<Sp<Seq<char>>>,
    n: nat,
    time: i32,
    offset: nat,
)
    requires
        n <= pending.len(),
        place_labels(labels, pending, n, time, offset).1 is None,
    ensures
        ({
            let after = place_labels(labels, pending, n, time, offset).0;
            &&& forall|k: Seq<char>| #[trigger]
                labels.contains_key(k) ==> after.contains_key(k) && after[k] == labels[k]
            &&& forall|i: int|
                0 <= i < n ==> after.contains_key((#[trigger] pending[i]).value)
                    && after[pending[i].value] == (LabelInfoV { ident: pending[i], time, offset })
        }),
    decreases n,
{
    if n > 0 {
        lemma_placed(labels, pending, (n - 1) as nat, time, offset);
    }
}

/// What is known of a label of the first `n` statements: its place, once there is an instruction
/// behind it.
spec fn label_known<F: InstrFormat>(
    format: F,
    initial: nat,
    code: Seq<LowV>,
    n: nat,
    i: int,
) -> bool {
    let st = gather(format, initial, code, n);
    let label = code[i]->Label_0;
    match next_instr(code, i as nat, n) {
        None => st.pending.contains(label),
        Some(j) => st.labels.contains_key(label.value) && st.labels[label.value] == (LabelInfoV {
            ident: label,
            time: code[j]->Instr_0.time,
            offset: initial + size_before(format, code, j as nat),
        }),
    }
}

/// The first instruction at or behind a place and before another.
pub open spec fn next_instr(code: Seq<LowV>, i: nat, n: nat) -> Option<int>
    decreases n,
{
    if n <= i {
        None
    } else if next_instr(code, i, (n - 1) as nat) is Some {
        next_instr(code, i, (n - 1) as nat)
    } else if code[n - 1] is Instr {
        Some(n - 1)
    } else {
        None
    }
}

proof fn lemma_label_known<F: InstrFormat>(
    format: F,
    initial: nat,
    code: Seq<LowV>,
    n: nat,
    i: int,
)
    requires
        0 <= i < n <= code.len(),
        gather(format, initial, code, n).errors.len() == 0,
        code[i] is Label,
    ensures
        label_known(format, initial, code, n, i),
    decreases n,
{
    let before = gather(format, initial, code, (n - 1) as nat);
    let st = gather(format, initial, code, n);
    let label = code[i]->Label_0;
    assert(st == gather_step(format, before, code[n - 1]));
    if i == n - 1 {
        assert(st.pending.last() == label);
        assert(next_instr(code, i as nat, i as nat) is None);
    } else {
        lemma_label_known(format, initial, code, (n - 1) as nat, i);
        match code[n - 1] {
            LowV::Label(l) => {
                if next_instr(code, i as nat, (n - 1) as nat) is None {
                    let k = choose|k: int| 0 <= k < before.pending.len() && before.pending[k] == label;
                    assert(st.pending[k] == label);
                }
            },
            LowV::Instr(instr) => {
                lemma_placed(
                    before.labels,
                    before.pending,
                    before.pending.len(),
                    instr.time,
                    before.offset,
                );
                lemma_gather_offset(format, initial, code, (n - 1) as nat);
            },
            _ => {},
        }
    }
}

/// A label stands for the instruction that follows it: its offset is the size of all that is
/// before that instruction, and its time is the time of that instruction.
pub proof fn law_label_is_next_instruction<F: InstrFormat>(
    format: F,
    initial: nat,
    code: Seq<LowV>,
    i: int,
)
    requires
        0 <= i < code.len(),
        code[i] is Label,
    ensures
        gather_label_info_spec(format, initial, code) matches Ok(labels) ==> {
            &&& next_instr(code, i as nat, code.len()) matches Some(j)
            &&& labels.contains_key(code[i]->Label_0.value)
            &&& labels[code[i]->Label_0.value].offset == initial + size_before(
                format,
                code,
                j as nat,
            )
            &&& labels[code[i]->Label_0.value].time == code[j]->Instr_0.time
        },
{
    if gather_label_info_spec(format, initial, code) is Ok {
        lemma_label_known(format, initial, code, code.len(), i);
    }
}

// =============================================================================
// Registers

/// The registers of one type that hold temporaries.
pub open spec fn held_regs(held: Seq<Held>, ty: ScalarType) -> Seq<i32>
    decreases held.len(),
{
    if held.len() == 0 {
        seq![]
    } else if held.last().ty == ty {
        held_regs(held.drop_last(), ty).push(held.last().reg)
    } else {
        held_regs(held.drop_last(), ty)
    }
}

/// Whether no register is given away twice, and none that the script names itself.
pub open spec fn registers_apart(cx: RegCx, st: RegSt, ty: ScalarType) -> bool {
    let all = held_regs(st.held, ty) + st.free(ty);
    &&& all.no_duplicates()
    &&& forall|i: int|
        0 <= i < all.len() ==> cx.regs(ty).contains(#[trigger] all[i]) && !cx.used.contains(all[i])
}

proof fn lemma_select(regs: Seq<i32>, used: Seq<i32>)
    ensures
        regs.no_duplicates() ==> select(regs, used, false).no_duplicates(),
        forall|i: int|
            0 <= i < select(regs, used, false).len() ==> regs.contains(
                #[trigger] select(regs, used, false)[i],
            ) && !used.contains(select(regs, used, false)[i]),
    decreases regs.len(),
{
    if regs.len() > 0 {
        let before = select(regs.drop_last(), used, false);
        let after = select(regs, used, false);
        lemma_select(regs.drop_last(), used);
        assert forall|i: int| 0 <= i < before.len() implies regs.contains(
            #[trigger] before[i],
        ) && (regs.no_duplicates() ==> before[i] != regs.last()) by {
            let k = choose|k: int|
                0 <= k < regs.drop_last().len() && regs.drop_last()[k] == before[i];
            assert(regs[k] == before[i]);
            assert(regs[regs.len() - 1] == regs.last());
        }
        assert forall|i: int| 0 <= i < after.len() implies regs.contains(#[trigger] after[i])
            && !used.contains(after[i]) by {
            if i < before.len() {
                assert(after[i] == before[i]);
            } else {
                assert(regs[regs.len() - 1] == after[i]);
            }
        }
        if regs.no_duplicates() {
            assert(regs.drop_last().no_duplicates());
            assert forall|i: int, j: int|
                0 <= i < after.len() && 0 <= j < after.len() && i != j implies after[i]
                != after[j] by {
                if i < before.len() {
                    assert(after[i] == before[i]);
                }
                if j < before.len() {
                    assert(after[j] == before[j]);
                }
            }
        }
    }
}

/// Where the register of a temporary is among those of its type.
spec fn held_rank(held: Seq<Held>, i: int, ty: ScalarType) -> int {
    held_regs(held.take(i), ty).len() as int
}

proof fn lemma_held_remove(held: Seq<Held>, i: int, ty: ScalarType)
    requires
        0 <= i < held.len(),
    ensures
        held[i].ty == ty ==> {
            let p = held_rank(held, i, ty);
            &&& 0 <= p < held_regs(held, ty).len()
            &&& held_regs(held, ty)[p] == held[i].reg
            &&& held_regs(held.remove(i), ty) == held_regs(held, ty).remove(p)
        },
        held[i].ty != ty ==> held_regs(held.remove(i), ty) == held_regs(held, ty),
    decreases held.len(),
{
    let last = held.len() - 1;
    if i == last {
        assert(held.remove(i) =~= held.drop_last());
        assert(held.take(i) =~= held.drop_last());
        if held[i].ty == ty {
            let before = held_regs(held.drop_last(), ty);
            assert(held_regs(held, ty).remove(before.len() as int) =~= before);
        }
    } else {
        let short = held.drop_last();
        lemma_held_remove(short, i, ty);
        assert(short.take(i) =~= held.take(i));
        assert(held.remove(i).drop_last() =~= short.remove(i));
        assert(held.remove(i).last() == held.last());
        if held[i].ty == ty && held.last().ty == ty {
            let p = held_rank(held, i, ty);
            let r = held_regs(short, ty);
            assert(r.push(held.last().reg).remove(p) =~= r.remove(p).push(held.last().reg));
        }
    }
}

/// Whether every temporary is held by a register of its own type.
pub open spec fn held_types(cx: RegCx, held: Seq<Held>) -> bool {
    forall|i: int|
        0 <= i < held.len() ==> var_ty(cx.vars, (#[trigger] held[i]).var)
            == Some(held[i].ty)
}

/// Where a register was before one was taken.
spec fn taken_from(k: int, h: int, n: int) -> int {
    if k < h {
        k
    } else if k == h {
        n - 1
    } else {
        k - 1
    }
}

/// Where a register was before one was given back.
spec fn given_from(k: int, p: int, n: int) -> int {
    if k < p {
        k
    } else if k == n - 1 {
        p
    } else {
        k + 1
    }
}

proof fn lemma_take_register(held: Seq<i32>, free: Seq<i32>)
    requires
        free.len() > 0,
        (held + free).no_duplicates(),
    ensures
        (held.push(free.last()) + free.drop_last()).no_duplicates(),
        forall|i: int|
            0 <= i < held.len() + free.len() ==> (held + free).contains(
                #[trigger] (held.push(free.last()) + free.drop_last())[i],
            ),
{
    let all = held + free;
    let after = held.push(free.last()) + free.drop_last();
    let h = held.len() as int;
    let n = all.len() as int;
    assert forall|k: int| 0 <= k < n implies #[trigger] after[k] == all[taken_from(k, h, n)] by {}
    assert forall|i: int, j: int|
        0 <= i < after.len() && 0 <= j < after.len() && i != j implies after[i] != after[j] by {
        assert(after[i] == all[taken_from(i, h, n)]);
        assert(after[j] == all[taken_from(j, h, n)]);
    }
    assert forall|i: int| 0 <= i < held.len() + free.len() implies all.contains(
        #[trigger] after[i],
    ) by {
        assert(after[i] == all[taken_from(i, h, n)]);
    }
}

proof fn lemma_give_register(held: Seq<i32>, free: Seq<i32>, p: int)
    requires
        0 <= p < held.len(),
        (held + free).no_duplicates(),
    ensures
        (held.remove(p) + free.push(held[p])).no_duplicates(),
        forall|i: int|
            0 <= i < held.len() + free.len() ==> (held + free).contains(
                #[trigger] (held.remove(p) + free.push(held[p]))[i],
            ),
{
    let all = held + free;
    let after = held.remove(p) + free.push(held[p]);
    let n = all.len() as int;
    assert forall|k: int| 0 <= k < n implies #[trigger] after[k] == all[given_from(k, p, n)] by {}
    assert forall|i: int, j: int|
        0 <= i < after.len() && 0 <= j < after.len() && i != j implies after[i] != after[j] by {
        assert(after[i] == all[given_from(i, p, n)]);
        assert(after[j] == all[given_from(j, p, n)]);
    }
    assert forall|i: int| 0 <= i < held.len() + free.len() implies all.contains(
        #[trigger] after[i],
    ) by {
        assert(after[i] == all[given_from(i, p, n)]);
    }
}

proof fn lemma_index_of(held: Seq<Held>, var: VarId)
    ensures
        index_of(held, var) matches Some(i) ==> 0 <= i < held.len() && held[i].var == var,
    decreases held.len(),
{
    if held.len() > 0 {
        lemma_index_of(held.drop_last(), var);
    }
}

proof fn lemma_stmt_keeps_apart(cx: RegCx, st: RegSt, stmt: LowV, ty: ScalarType)
    requires
        registers_apart(cx, st, ty),
        held_types(cx, st.held),
    ensures
        assign_stmt(cx, st, stmt) matches Ok((after, _)) ==> registers_apart(cx, after, ty)
            && held_types(cx, after.held),
{
    if let Ok((after, _)) = assign_stmt(cx, st, stmt) {
        let held = held_regs(st.held, ty);
        let all = held + st.free(ty);
        match stmt {
            LowV::RegAlloc { var, cause } => {
                assert(after.held.drop_last() =~= st.held);
                if var_ty(cx.vars, var) == Some(ty) {
                    lemma_take_register(held, st.free(ty));
                    let now = held_regs(after.held, ty) + after.free(ty);
                    assert(now =~= held.push(st.free(ty).last()) + st.free(ty).drop_last());
                    assert forall|i: int| 0 <= i < now.len() implies cx.regs(ty).contains(
                        #[trigger] now[i],
                    ) && !cx.used.contains(now[i]) by {
                        assert(all.contains(now[i]));
                    }
                }
            },
            LowV::RegFree { var } => {
                lemma_index_of(st.held, var);
                let i = index_of(st.held, var)->0;
                lemma_held_remove(st.held, i, ty);
                assert(st.held[i].var == var);
                if st.held[i].ty == ty {
                    let p = held_rank(st.held, i, ty);
                    lemma_give_register(held, st.free(ty), p);
                    let now = held_regs(after.held, ty) + after.free(ty);
                    assert(now =~= held.remove(p) + st.free(ty).push(held[p]));
                    assert forall|i: int| 0 <= i < now.len() implies cx.regs(ty).contains(
                        #[trigger] now[i],
                    ) && !cx.used.contains(now[i]) by {
                        assert(all.contains(now[i]));
                    }
                }
                assert forall|k: int| 0 <= k < after.held.len() implies
                    var_ty(cx.vars, (#[trigger] after.held[k]).var)
                    == Some(after.held[k].ty) by {
                    if k < i {
                        assert(after.held[k] == st.held[k]);
                    } else {
                        assert(after.held[k] == st.held[k + 1]);
                    }
                }
            },
            _ => {},
        }
    }
}

/// Wherever code has been given registers up to, no two temporaries share one, none is in a
/// register that the script names itself, and all are in registers for general use.
pub proof fn law_temporaries_have_their_own_registers(
    cx: RegCx,
    code: Seq<LowV>,
    n: nat,
    ty: ScalarType,
)
    requires
        n <= code.len(),
        cx.regs(ty).no_duplicates(),
    ensures
        assign_stmts(cx, code, n) matches Ok((st, _)) ==> registers_apart(cx, st, ty)
            && held_types(cx, st.held),
    decreases n,
{
    if n == 0 {
        let free = select(cx.regs(ty), cx.used, false);
        lemma_select(cx.regs(ty), cx.used);
        let all = held_regs(cx.start().held, ty) + cx.start().free(ty);
        assert(all =~= free.reverse());
        assert forall|i: int| 0 <= i < all.len() implies cx.regs(ty).contains(#[trigger] all[i])
            && !cx.used.contains(all[i]) by {
            assert(all[i] == free[free.len() - 1 - i]);
        }
        assert forall|i: int, j: int|
            0 <= i < all.len() && 0 <= j < all.len() && i != j implies all[i] != all[j] by {
            assert(all[i] == free[free.len() - 1 - i]);
            assert(all[j] == free[free.len() - 1 - j]);
        }
    } else {
        law_temporaries_have_their_own_registers(cx, code, (n - 1) as nat, ty);
        if let Ok((st, _)) = assign_stmts(cx, code, (n - 1) as nat) {
            lemma_stmt_keeps_apart(cx, st, code[n - 1], ty);
        }
    }
}

} // verus!
