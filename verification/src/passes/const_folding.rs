//! What becomes of a script when its constants are folded.

use crate::float32::F32;
use crate::passes::const_simplify::{
    as_const, binop_eval, float_result, fold, law_simplify_keeps_value, run_binop, run_expr,
    run_unop, simp_block, simp_body, simp_cond, simp_decls, simp_expr, simp_exprs, simp_fields,
    simp_item, simp_items, simp_meta, simp_metas, simp_script, table_is_true, unop_eval, Env,
    Evaluated, FloatOp, SimpSt,
};
use crate::pos::{Sp, Spanned};
use crate::script::{BinopKind, BodyV, CondV, ExprV, ItemV, MetaV, ScriptV, StmtV, UnopKind, VarV};
use crate::value::ScalarValue;
use vstd::prelude::*;

verus! {

/// Whether an expression is a literal number.
pub open spec fn is_number(e: ExprV) -> bool {
    e is LitInt || e is LitFloat
}

/// Whether nothing is left in an expression that could be computed: no operation has literals for
/// all its operands, and no choice has one for its condition.
pub open spec fn reduced(e: ExprV) -> bool
    decreases e, 0nat,
{
    match e {
        ExprV::Ternary { cond, left, right } => {
            &&& !is_number(cond.value)
            &&& reduced(cond.value)
            &&& reduced(left.value)
            &&& reduced(right.value)
        },
        ExprV::Binop(a, _, b) => {
            &&& !(is_number(a.value) && is_number(b.value))
            &&& reduced(a.value)
            &&& reduced(b.value)
        },
        ExprV::Call { args, .. } => all_reduced(args, args.len()),
        ExprV::Unop(_, b) => !is_number(b.value) && reduced(b.value),
        _ => true,
    }
}

/// Whether nothing is left in the first `n` expressions of a list.
pub open spec fn all_reduced(es: Seq<Sp<ExprV>>, n: nat) -> bool
    decreases es, n,
{
    if n == 0 || n > es.len() {
        true
    } else {
        all_reduced(es, (n - 1) as nat) && reduced(es[n - 1].value)
    }
}

/// Whether an expression has the value of another, and is reduced if all could be computed.
#[verifier::opaque]
pub open spec fn keeps(
    table: Seq<(FloatOp, F32)>,
    all: bool,
    e: Sp<ExprV>,
    out: Sp<ExprV>,
) -> bool {
    &&& out.span == e.span
    &&& forall|env: Env| #[trigger]
        table_is_true(table, env) ==> run_expr(env, out) == run_expr(env, e)
    &&& all ==> reduced(out.value)
}

/// Whether a condition keeps its meaning.
pub open spec fn cond_keeps(
    table: Seq<(FloatOp, F32)>,
    all: bool,
    c: Sp<CondV>,
    out: Sp<CondV>,
) -> bool {
    &&& out.span == c.span
    &&& match (c.value, out.value) {
        (CondV::Expr(e), CondV::Expr(x)) => keeps(table, all, e, x),
        (CondV::Decrement(v), CondV::Decrement(w)) => v == w,
        _ => false,
    }
}

/// Whether the variables of a declaration stay, and their values keep their meaning.
pub open spec fn decls_keep(
    table: Seq<(FloatOp, F32)>,
    all: bool,
    vars: Seq<(Sp<VarV>, Option<Sp<ExprV>>)>,
    out: Seq<(Sp<VarV>, Option<Sp<ExprV>>)>,
) -> bool {
    &&& out.len() == vars.len()
    &&& forall|i: int|
        0 <= i < vars.len() ==> (#[trigger] out[i]).0 == vars[i].0 && match (vars[i].1, out[i].1) {
            (Some(e), Some(x)) => keeps(table, all, e, x),
            (None, None) => true,
            _ => false,
        }
}

/// Whether a statement stays what it is, and its expressions keep their meaning.
pub open spec fn body_keeps(
    table: Seq<(FloatOp, F32)>,
    all: bool,
    body: Sp<BodyV>,
    out: Sp<BodyV>,
) -> bool
    decreases body, 0nat,
{
    &&& out.span == body.span
    &&& match (body.value, out.value) {
        (
            BodyV::CondJump { keyword, cond, jump },
            BodyV::CondJump { keyword: k, cond: c, jump: j },
        ) => k == keyword && j == jump && cond_keeps(table, all, cond, c),
        (BodyV::Loop { block }, BodyV::Loop { block: b }) => block_keeps(
            table,
            all,
            block,
            b,
            block.len(),
        ),
        (
            BodyV::While { is_do_while, cond, block },
            BodyV::While { is_do_while: d, cond: c, block: b },
        ) => {
            &&& d == is_do_while
            &&& cond_keeps(table, all, cond, c)
            &&& block_keeps(table, all, block, b, block.len())
        },
        (BodyV::Expr(e), BodyV::Expr(x)) => keeps(table, all, e, x),
        (
            BodyV::Assignment { var, op, value },
            BodyV::Assignment { var: v, op: o, value: x },
        ) => v == var && o == op && keeps(table, all, value, x),
        (
            BodyV::Declaration { keyword, vars },
            BodyV::Declaration { keyword: k, vars: v },
        ) => k == keyword && decls_keep(table, all, vars, v),
        (BodyV::Jump(_), _) => out == body,
        (BodyV::InterruptLabel(_), _) => out == body,
        (BodyV::Label(_), _) => out == body,
        (BodyV::NoInstruction, _) => out == body,
        _ => false,
    }
}

/// Whether a block has the same first `n` statements, and their expressions keep their meaning.
pub open spec fn block_keeps(
    table: Seq<(FloatOp, F32)>,
    all: bool,
    block: Seq<Sp<StmtV>>,
    out: Seq<Sp<StmtV>>,
    n: nat,
) -> bool
    decreases block, n,
{
    if n == 0 || n > block.len() {
        out.len() == 0
    } else {
        let (stmt, x) = (block[n - 1], out.last());
        &&& out.len() == n
        &&& block_keeps(table, all, block, out.drop_last(), (n - 1) as nat)
        &&& x.span == stmt.span
        &&& x.value.time == stmt.value.time
        &&& x.value.labels == stmt.value.labels
        &&& body_keeps(table, all, stmt.value.body, x.value.body)
    }
}

/// Whether metadata stays what it is, and its expressions keep their meaning.
pub open spec fn meta_keeps(
    table: Seq<(FloatOp, F32)>,
    all: bool,
    meta: Sp<MetaV>,
    out: Sp<MetaV>,
) -> bool
    decreases meta, 0nat,
{
    &&& out.span == meta.span
    &&& match (meta.value, out.value) {
        (MetaV::Scalar(e), MetaV::Scalar(x)) => keeps(table, all, e, x),
        (MetaV::Array(items), MetaV::Array(xs)) => metas_keep(table, all, items, xs, items.len()),
        (MetaV::Object(f), MetaV::Object(x)) => x.span == f.span && fields_keep(
            table,
            all,
            f.value,
            x.value,
            f.value.len(),
        ),
        (
            MetaV::Variant { name, fields: f },
            MetaV::Variant { name: k, fields: x },
        ) => k == name && x.span == f.span && fields_keep(
            table,
            all,
            f.value,
            x.value,
            f.value.len(),
        ),
        _ => false,
    }
}

/// Whether a list has the same first `n` values.
pub open spec fn metas_keep(
    table: Seq<(FloatOp, F32)>,
    all: bool,
    items: Seq<Sp<MetaV>>,
    out: Seq<Sp<MetaV>>,
    n: nat,
) -> bool
    decreases items, n,
{
    if n == 0 || n > items.len() {
        out.len() == 0
    } else {
        &&& out.len() == n
        &&& metas_keep(table, all, items, out.drop_last(), (n - 1) as nat)
        &&& meta_keeps(table, all, items[n - 1], out.last())
    }
}

/// Whether an object has the same first `n` fields.
pub open spec fn fields_keep(
    table: Seq<(FloatOp, F32)>,
    all: bool,
    fields: Seq<(Sp<Seq<char>>, Sp<MetaV>)>,
    out: Seq<(Sp<Seq<char>>, Sp<MetaV>)>,
    n: nat,
) -> bool
    decreases fields, n,
{
    if n == 0 || n > fields.len() {
        out.len() == 0
    } else {
        &&& out.len() == n
        &&& fields_keep(table, all, fields, out.drop_last(), (n - 1) as nat)
        &&& out.last().0 == fields[n - 1].0
        &&& meta_keeps(table, all, fields[n - 1].1, out.last().1)
    }
}

/// Whether an item stays what it is, and its expressions keep their meaning.
pub open spec fn item_keeps(
    table: Seq<(FloatOp, F32)>,
    all: bool,
    item: Sp<ItemV>,
    out: Sp<ItemV>,
) -> bool {
    &&& out.span == item.span
    &&& match (item.value, out.value) {
        (
            ItemV::Meta { keyword, name, fields: f },
            ItemV::Meta { keyword: k, name: m, fields: x },
        ) => k == keyword && m == name && x.span == f.span && fields_keep(
            table,
            all,
            f.value,
            x.value,
            f.value.len(),
        ),
        (
            ItemV::AnmScript { number, name, code },
            ItemV::AnmScript { number: i, name: m, code: x },
        ) => i == number && m == name && block_keeps(table, all, code, x, code.len()),
        (
            ItemV::Func { name, code: Some(code) },
            ItemV::Func { name: m, code: Some(x) },
        ) => m == name && block_keeps(table, all, code, x, code.len()),
        (ItemV::Func { code: None, .. }, _) => out == item,
        (ItemV::FileList { .. }, _) => out == item,
        _ => false,
    }
}

// =============================================================================

/// How much a pass has found to say.
pub open spec fn found(st: SimpSt) -> nat {
    st.errors.len() + st.pending.len()
}

proof fn lemma_fold(table: Seq<(FloatOp, F32)>, st: SimpSt, e: ExprV)
    ensures
        found(st) <= found(fold(table, st, e).1),
{
}

proof fn lemma_reduced(table: Seq<(FloatOp, F32)>, st: SimpSt, e: Sp<ExprV>)
    ensures
        found(st) <= found(simp_expr(table, st, e).1),
        found(st) == found(simp_expr(table, st, e).1) ==> reduced(
            simp_expr(table, st, e).0.value,
        ),
    decreases e, 0nat,
{
    match e.value {
        ExprV::Ternary { cond, left, right } => {
            lemma_reduced(table, st, *cond);
            let (c, s1) = simp_expr(table, st, *cond);
            lemma_reduced(table, s1, *left);
            let (l, s2) = simp_expr(table, s1, *left);
            lemma_reduced(table, s2, *right);
            let (r, s3) = simp_expr(table, s2, *right);
            let v = ExprV::Ternary { cond: Box::new(c), left: Box::new(l), right: Box::new(r) };
            lemma_fold(table, s3, v);
            assert(simp_expr(table, st, e).0.value == fold(table, s3, v).0);
        },
        ExprV::Binop(a, op, b) => {
            lemma_reduced(table, st, *a);
            let (x, s1) = simp_expr(table, st, *a);
            lemma_reduced(table, s1, *b);
            let (y, s2) = simp_expr(table, s1, *b);
            let v = ExprV::Binop(Box::new(x), op, Box::new(y));
            lemma_fold(table, s2, v);
            assert(simp_expr(table, st, e).0.value == fold(table, s2, v).0);
        },
        ExprV::Call { func, args } => {
            lemma_all_reduced(table, st, args, args.len());
            let xs = simp_exprs(table, st, args, args.len()).0;
            assert(simp_expr(table, st, e).0.value == (ExprV::Call { func, args: xs }));
        },
        ExprV::Unop(op, b) => {
            lemma_reduced(table, st, *b);
            let (y, s1) = simp_expr(table, st, *b);
            let v = ExprV::Unop(op, Box::new(y));
            lemma_fold(table, s1, v);
            assert(simp_expr(table, st, e).0.value == fold(table, s1, v).0);
        },
        _ => {},
    }
}

proof fn lemma_all_reduced(table: Seq<(FloatOp, F32)>, st: SimpSt, es: Seq<Sp<ExprV>>, n: nat)
    requires
        n <= es.len(),
    ensures
        found(st) <= found(simp_exprs(table, st, es, n).1),
        simp_exprs(table, st, es, n).0.len() == n,
        found(st) == found(simp_exprs(table, st, es, n).1) ==> all_reduced(
            simp_exprs(table, st, es, n).0,
            n,
        ),
    decreases es, n,
{
    if n > 0 {
        let m = (n - 1) as nat;
        lemma_all_reduced(table, st, es, m);
        let (out, s1) = simp_exprs(table, st, es, m);
        lemma_reduced(table, s1, es[n - 1]);
        let xs = simp_exprs(table, st, es, n).0;
        if found(st) == found(simp_exprs(table, st, es, n).1) {
            lemma_reduced_prefix(out, xs, m);
        }
    }
}

proof fn lemma_reduced_prefix(a: Seq<Sp<ExprV>>, b: Seq<Sp<ExprV>>, n: nat)
    requires
        n <= a.len() <= b.len(),
        forall|i: int| 0 <= i < n ==> a[i] == b[i],
        all_reduced(a, n),
    ensures
        all_reduced(b, n),
    decreases n,
{
    if n > 0 {
        lemma_reduced_prefix(a, b, (n - 1) as nat);
    }
}

proof fn lemma_keeps(table: Seq<(FloatOp, F32)>, all: bool, st: SimpSt, e: Sp<ExprV>)
    requires
        all ==> found(simp_expr(table, st, e).1) == found(st),
    ensures
        keeps(table, all, e, simp_expr(table, st, e).0),
{
    reveal(keeps);
    lemma_reduced(table, st, e);
    let out = simp_expr(table, st, e).0;
    assert forall|env: Env| #[trigger] table_is_true(table, env) implies run_expr(env, out)
        == run_expr(env, e) by {
        law_simplify_keeps_value(table, st, env, e);
    }
}

proof fn lemma_cond(table: Seq<(FloatOp, F32)>, all: bool, st: SimpSt, c: Sp<CondV>)
    ensures
        found(st) <= found(simp_cond(table, st, c).1),
        (all ==> found(simp_cond(table, st, c).1) == found(st)) ==> cond_keeps(
            table,
            all,
            c,
            simp_cond(table, st, c).0,
        ),
{
    if let CondV::Expr(e) = c.value {
        lemma_reduced(table, st, e);
        if all ==> found(simp_cond(table, st, c).1) == found(st) {
            lemma_keeps(table, all, st, e);
        }
    }
}

proof fn lemma_decls(
    table: Seq<(FloatOp, F32)>,
    all: bool,
    st: SimpSt,
    vars: Seq<(Sp<VarV>, Option<Sp<ExprV>>)>,
    n: nat,
)
    requires
        n <= vars.len(),
    ensures
        found(st) <= found(simp_decls(table, st, vars, n).1),
        (all ==> found(simp_decls(table, st, vars, n).1) == found(st)) ==> decls_keep(
            table,
            all,
            vars.take(n as int),
            simp_decls(table, st, vars, n).0,
        ),
    decreases n,
{
    if n > 0 {
        let m = (n - 1) as nat;
        lemma_decls(table, all, st, vars, m);
        let (before, s1) = simp_decls(table, st, vars, m);
        let (out, s2) = simp_decls(table, st, vars, n);
        if let Some(e) = vars[n - 1].1 {
            lemma_reduced(table, s1, e);
            if all ==> found(s2) == found(st) {
                lemma_keeps(table, all, s1, e);
            }
        }
        if all ==> found(s2) == found(st) {
            let (head, most) = (vars.take(n as int), vars.take(m as int));
            assert forall|i: int| 0 <= i < head.len() implies (#[trigger] out[i]).0 == head[i].0
                && match (head[i].1, out[i].1) {
                (Some(e), Some(x)) => keeps(table, all, e, x),
                (None, None) => true,
                _ => false,
            } by {
                if i < m {
                    assert(out[i] == before[i]);
                    assert(head[i] == most[i]);
                }
            }
        }
    }
}

proof fn lemma_body(table: Seq<(FloatOp, F32)>, all: bool, st: SimpSt, body: Sp<BodyV>)
    ensures
        found(st) <= found(simp_body(table, st, body).1),
        (all ==> found(simp_body(table, st, body).1) == found(st)) ==> body_keeps(
            table,
            all,
            body,
            simp_body(table, st, body).0,
        ),
    decreases body, 0nat,
{
    match body.value {
        BodyV::CondJump { cond, .. } => lemma_cond(table, all, st, cond),
        BodyV::Loop { block } => lemma_block(table, all, st, block, block.len()),
        BodyV::While { cond, block, .. } => {
            lemma_cond(table, all, st, cond);
            let s1 = simp_cond(table, st, cond).1;
            lemma_block(table, all, s1, block, block.len());
        },
        BodyV::Expr(e) => {
            lemma_reduced(table, st, e);
            if all ==> found(simp_expr(table, st, e).1) == found(st) {
                lemma_keeps(table, all, st, e);
            }
        },
        BodyV::Assignment { value, .. } => {
            lemma_reduced(table, st, value);
            if all ==> found(simp_expr(table, st, value).1) == found(st) {
                lemma_keeps(table, all, st, value);
            }
        },
        BodyV::Declaration { vars, .. } => {
            lemma_decls(table, all, st, vars, vars.len());
            assert(vars.take(vars.len() as int) =~= vars);
        },
        _ => {},
    }
}

proof fn lemma_block(
    table: Seq<(FloatOp, F32)>,
    all: bool,
    st: SimpSt,
    block: Seq<Sp<StmtV>>,
    n: nat,
)
    requires
        n <= block.len(),
    ensures
        found(st) <= found(simp_block(table, st, block, n).1),
        simp_block(table, st, block, n).0.len() == n,
        (all ==> found(simp_block(table, st, block, n).1) == found(st)) ==> block_keeps(
            table,
            all,
            block,
            simp_block(table, st, block, n).0,
            n,
        ),
    decreases block, n,
{
    if n > 0 {
        let m = (n - 1) as nat;
        lemma_block(table, all, st, block, m);
        let (before, s1) = simp_block(table, st, block, m);
        lemma_body(table, all, s1, block[n - 1].value.body);
        assert(simp_block(table, st, block, n).0.drop_last() =~= before);
    }
}

proof fn lemma_meta(table: Seq<(FloatOp, F32)>, all: bool, st: SimpSt, meta: Sp<MetaV>)
    ensures
        found(st) <= found(simp_meta(table, st, meta).1),
        (all ==> found(simp_meta(table, st, meta).1) == found(st)) ==> meta_keeps(
            table,
            all,
            meta,
            simp_meta(table, st, meta).0,
        ),
    decreases meta, 0nat,
{
    match meta.value {
        MetaV::Scalar(e) => {
            lemma_reduced(table, st, e);
            if all ==> found(simp_expr(table, st, e).1) == found(st) {
                lemma_keeps(table, all, st, e);
            }
        },
        MetaV::Array(items) => lemma_metas(table, all, st, items, items.len()),
        MetaV::Object(f) => lemma_fields(table, all, st, f.value, f.value.len()),
        MetaV::Variant { fields: f, .. } => lemma_fields(table, all, st, f.value, f.value.len()),
    }
}

proof fn lemma_metas(
    table: Seq<(FloatOp, F32)>,
    all: bool,
    st: SimpSt,
    items: Seq<Sp<MetaV>>,
    n: nat,
)
    requires
        n <= items.len(),
    ensures
        found(st) <= found(simp_metas(table, st, items, n).1),
        simp_metas(table, st, items, n).0.len() == n,
        (all ==> found(simp_metas(table, st, items, n).1) == found(st)) ==> metas_keep(
            table,
            all,
            items,
            simp_metas(table, st, items, n).0,
            n,
        ),
    decreases items, n,
{
    if n > 0 {
        let m = (n - 1) as nat;
        lemma_metas(table, all, st, items, m);
        let (before, s1) = simp_metas(table, st, items, m);
        lemma_meta(table, all, s1, items[n - 1]);
        assert(simp_metas(table, st, items, n).0.drop_last() =~= before);
    }
}

proof fn lemma_fields(
    table: Seq<(FloatOp, F32)>,
    all: bool,
    st: SimpSt,
    fields: Seq<(Sp<Seq<char>>, Sp<MetaV>)>,
    n: nat,
)
    requires
        n <= fields.len(),
    ensures
        found(st) <= found(simp_fields(table, st, fields, n).1),
        simp_fields(table, st, fields, n).0.len() == n,
        (all ==> found(simp_fields(table, st, fields, n).1) == found(st)) ==> fields_keep(
            table,
            all,
            fields,
            simp_fields(table, st, fields, n).0,
            n,
        ),
    decreases fields, n,
{
    if n > 0 {
        let m = (n - 1) as nat;
        lemma_fields(table, all, st, fields, m);
        let (before, s1) = simp_fields(table, st, fields, m);
        lemma_meta(table, all, s1, fields[n - 1].1);
        assert(simp_fields(table, st, fields, n).0.drop_last() =~= before);
    }
}

proof fn lemma_item(table: Seq<(FloatOp, F32)>, all: bool, st: SimpSt, item: Sp<ItemV>)
    ensures
        found(st) <= found(simp_item(table, st, item).1),
        (all ==> found(simp_item(table, st, item).1) == found(st)) ==> item_keeps(
            table,
            all,
            item,
            simp_item(table, st, item).0,
        ),
{
    match item.value {
        ItemV::Meta { fields: f, .. } => lemma_fields(table, all, st, f.value, f.value.len()),
        ItemV::AnmScript { code, .. } => lemma_block(table, all, st, code, code.len()),
        ItemV::Func { code: Some(code), .. } => lemma_block(table, all, st, code, code.len()),
        _ => {},
    }
}

proof fn lemma_items(
    table: Seq<(FloatOp, F32)>,
    all: bool,
    st: SimpSt,
    items: Seq<Sp<ItemV>>,
    n: nat,
)
    requires
        n <= items.len(),
    ensures
        found(st) <= found(simp_items(table, st, items, n).1),
        simp_items(table, st, items, n).0.len() == n,
        (all ==> found(simp_items(table, st, items, n).1) == found(st)) ==> forall|i: int|
            0 <= i < n ==> item_keeps(
                table,
                all,
                items[i],
                #[trigger] simp_items(table, st, items, n).0[i],
            ),
    decreases n,
{
    if n > 0 {
        let m = (n - 1) as nat;
        lemma_items(table, all, st, items, m);
        let (before, s1) = simp_items(table, st, items, m);
        lemma_item(table, all, s1, items[n - 1]);
        let (out, s2) = simp_items(table, st, items, n);
        if all ==> found(s2) == found(st) {
            assert forall|i: int| 0 <= i < n implies item_keeps(
                table,
                all,
                items[i],
                #[trigger] out[i],
            ) by {
                if i < m {
                    assert(out[i] == before[i]);
                }
            }
        }
    }
}

/// A script stays what it is but for its expressions, and each of these keeps its value.  If there
/// was no error and no result is missing, nothing is left in it that could be computed.
pub proof fn law_folded_script_keeps_its_meaning(
    table: Seq<(FloatOp, F32)>,
    st: SimpSt,
    script: ScriptV,
)
    ensures
        ({
            let (out, end) = simp_script(table, st, script);
            &&& out.mapfiles == script.mapfiles
            &&& out.items.len() == script.items.len()
            &&& forall|i: int|
                0 <= i < script.items.len() ==> item_keeps(
                    table,
                    end == st,
                    script.items[i],
                    #[trigger] out.items[i],
                )
        }),
{
    let (out, end) = simp_script(table, st, script);
    lemma_items(table, end == st, st, script.items, script.items.len());
}

// =============================================================================
// Errors, and results that are missing

/// Whether every operation in an expression has a value where its operands have one.
pub open spec fn behaves(env: Env, e: Sp<ExprV>) -> bool
    decreases e, 0nat,
{
    match e.value {
        ExprV::Ternary { cond, left, right } => {
            &&& behaves(env, *cond)
            &&& behaves(env, *left)
            &&& behaves(env, *right)
            &&& !(run_expr(env, *cond) matches Some(ScalarValue::Float(_)))
        },
        ExprV::Binop(a, _, b) => {
            &&& behaves(env, *a)
            &&& behaves(env, *b)
            &&& run_expr(env, *a) is Some && run_expr(env, *b) is Some ==> run_expr(env, e) is Some
        },
        ExprV::Call { args, .. } => all_behave(env, args, args.len()),
        ExprV::Unop(_, b) => {
            &&& behaves(env, *b)
            &&& run_expr(env, *b) is Some ==> run_expr(env, e) is Some
        },
        _ => true,
    }
}

/// Whether that holds of the first `n` expressions of a list.
pub open spec fn all_behave(env: Env, es: Seq<Sp<ExprV>>, n: nat) -> bool
    decreases es, n,
{
    if n == 0 || n > es.len() {
        true
    } else {
        all_behave(env, es, (n - 1) as nat) && behaves(env, es[n - 1])
    }
}

proof fn lemma_errors_have_no_value(
    table: Seq<(FloatOp, F32)>,
    env: Env,
    op: Sp<BinopKind>,
    a: Sp<ScalarValue>,
    b: Sp<ScalarValue>,
)
    ensures
        binop_eval(table, op, a, b) is Err ==> run_binop(env, op.value, a.value, b.value) is None,
        binop_eval(table, op, a, b) matches Ok(Evaluated::Pending(wanted)) ==> float_result(
            table,
            wanted,
        ) is None,
{
}

proof fn lemma_unop_error(op: Sp<UnopKind>, b: Sp<ScalarValue>)
    ensures
        unop_eval(op, b) is Err ==> run_unop(op.value, b.value) is None,
{
}

/// Whether a pass has found no error, and asks for nothing that is in the table.
spec fn asks(table: Seq<(FloatOp, F32)>, st: SimpSt, end: SimpSt) -> bool {
    &&& end.errors == st.errors
    &&& st.pending.len() <= end.pending.len()
    &&& forall|i: int|
        0 <= i < end.pending.len() ==> if i < st.pending.len() {
            (#[trigger] end.pending[i]) == st.pending[i]
        } else {
            float_result(table, end.pending[i]) is None
        }
}

/// An error is found only where an operation has no value although its operands have one, and only
/// results are asked for that the table does not have.
pub proof fn law_errors_are_found_only_where_there_is_no_value(
    table: Seq<(FloatOp, F32)>,
    st: SimpSt,
    env: Env,
    e: Sp<ExprV>,
)
    requires
        table_is_true(table, env),
        behaves(env, e),
    ensures
        simp_expr(table, st, e).1.errors == st.errors,
        st.pending.len() <= simp_expr(table, st, e).1.pending.len(),
        forall|i: int|
            st.pending.len() <= i < simp_expr(table, st, e).1.pending.len() ==> float_result(
                table,
                #[trigger] simp_expr(table, st, e).1.pending[i],
            ) is None,
{
    lemma_asks(table, st, env, e);
}

proof fn lemma_asks(table: Seq<(FloatOp, F32)>, st: SimpSt, env: Env, e: Sp<ExprV>)
    requires
        table_is_true(table, env),
        behaves(env, e),
    ensures
        asks(table, st, simp_expr(table, st, e).1),
    decreases e, 0nat,
{
    let end = simp_expr(table, st, e).1;
    match e.value {
        ExprV::Ternary { cond, left, right } => {
            lemma_asks(table, st, env, *cond);
            let (c, s1) = simp_expr(table, st, *cond);
            lemma_asks(table, s1, env, *left);
            let s2 = simp_expr(table, s1, *left).1;
            lemma_asks(table, s2, env, *right);
            let s3 = simp_expr(table, s2, *right).1;
            law_simplify_keeps_value(table, st, env, *cond);
            assert(as_const(c.value) matches Some(v) ==> run_expr(env, c) == Some(v));
            assert(end == s3);
        },
        ExprV::Binop(a, op, b) => {
            lemma_asks(table, st, env, *a);
            let (x, s1) = simp_expr(table, st, *a);
            lemma_asks(table, s1, env, *b);
            let (y, s2) = simp_expr(table, s1, *b);
            law_simplify_keeps_value(table, st, env, *a);
            law_simplify_keeps_value(table, s1, env, *b);
            assert(as_const(x.value) matches Some(v) ==> run_expr(env, x) == Some(v));
            assert(as_const(y.value) matches Some(v) ==> run_expr(env, y) == Some(v));
            if let (Some(v), Some(w)) = (as_const(x.value), as_const(y.value)) {
                lemma_errors_have_no_value(
                    table,
                    env,
                    op,
                    Spanned { span: x.span, value: v },
                    Spanned { span: y.span, value: w },
                );
                assert(run_expr(env, e) == run_binop(env, op.value, v, w));
            }
        },
        ExprV::Call { args, .. } => lemma_all_ask(table, st, env, args, args.len()),
        ExprV::Unop(op, b) => {
            lemma_asks(table, st, env, *b);
            let (y, s1) = simp_expr(table, st, *b);
            law_simplify_keeps_value(table, st, env, *b);
            assert(as_const(y.value) matches Some(v) ==> run_expr(env, y) == Some(v));
            if let Some(v) = as_const(y.value) {
                lemma_unop_error(op, Spanned { span: y.span, value: v });
                assert(run_expr(env, e) == run_unop(op.value, v));
            }
        },
        _ => {},
    }
}

proof fn lemma_all_ask(
    table: Seq<(FloatOp, F32)>,
    st: SimpSt,
    env: Env,
    es: Seq<Sp<ExprV>>,
    n: nat,
)
    requires
        table_is_true(table, env),
        all_behave(env, es, n),
    ensures
        asks(table, st, simp_exprs(table, st, es, n).1),
    decreases es, n,
{
    if n > 0 && n <= es.len() {
        lemma_all_ask(table, st, env, es, (n - 1) as nat);
        let s1 = simp_exprs(table, st, es, (n - 1) as nat).1;
        lemma_asks(table, s1, env, es[n - 1]);
    }
}

} // verus!
