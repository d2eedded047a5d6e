//! What is in scope where, and that names are resolved accordingly.

use crate::ast::{
    Block, CallableName, CondBlock, Expr, ExprCall, FuncParam, Item, Meta, PseudoArg, Stmt, StmtKind, TypeKeyword, Var,
    VarName,
};
use crate::context::{declared_sig, DefTables, InfoV, ParamV};
use crate::game::LanguageKey;
use crate::ident::{Ident, ResIdent};
use crate::pos::{Sp, Span, Spanned};
use crate::resolve::resolve_names::{
    colors_of, enter_block, enter_func, ins_sig, law_block_keeps_scope, law_item_keeps_scope,
    lemma_blocks_ribs, lemma_decls_ribs, lemma_stmt_ribs, res_args, res_block, res_call,
    res_callable, res_cases, res_cond_blocks, res_consts, res_decls, res_expr, res_exprs,
    res_fields, res_file, res_item, res_items, res_meta, res_metas, res_opt_expr, res_pseudos,
    res_stmt, res_stmts, res_var, rooted, same_but_top, scope_consts, scope_item, scope_items,
    scope_params, scope_stmts, ColorV, NameSt,
};
use crate::resolve::rib::{
    given_by_item, law_barrier_hides_locals, law_innermost_definition_wins,
    law_other_names_show_through, resolve_spec, Query, ResolveError, BarrierKind, RibEntry, RibKind, RibV,
    StacksV,
};
use crate::resolve::{own_def, res_number, DefId, Namespace};
use crate::value::VarType;
use vstd::prelude::*;

verus! {

// =============================================================================
// Definitions

/// A name that is given a meaning.
pub ghost struct DefnV {
    pub ns: Namespace,
    pub ident: Sp<ResIdent>,
    pub info: InfoV,
}

/// Whether names can be given a meaning: each is a mention that is counted and has no meaning yet,
/// and no two are one mention.
pub open spec fn fresh(st: NameSt, defs: Seq<DefnV>) -> bool {
    &&& forall|i: int|
        0 <= i < defs.len() ==> {
            let n = res_number((#[trigger] defs[i]).ident.value);
            0 < n < st.map.len() && st.map[n] is None
        }
    &&& forall|i: int, j: int|
        0 <= i < j < defs.len() ==> res_number((#[trigger] defs[i]).ident.value) != res_number(
            (#[trigger] defs[j]).ident.value,
        )
}

/// Whether a definition is the last one of its name.
pub open spec fn is_last(defs: Seq<DefnV>, i: int) -> bool {
    forall|j: int|
        i < j < defs.len() ==> (#[trigger] defs[j]).ns != defs[i].ns || defs[j].ident.value@
            != defs[i].ident.value@
}

/// Whether names can be added to the top rib of each namespace.
pub open spec fn open_tops(ribs: StacksV) -> bool {
    &&& rooted(ribs)
    &&& ribs.vars.last().kind.barrier_spec() is None
    &&& !(ribs.vars.last().kind is Mapfile)
    &&& ribs.funcs.last().kind.barrier_spec() is None
    &&& !(ribs.funcs.last().kind is Mapfile)
}

spec fn define_all(st: NameSt, defs: Seq<DefnV>) -> NameSt
    decreases defs.len(),
{
    if defs.len() == 0 {
        st
    } else {
        let d = defs.last();
        define_all(st, defs.drop_last()).define(d.ns, d.ident, d.info)
    }
}

/// What has come of definitions.
#[verifier::opaque]
spec fn all_defined(st: NameSt, defs: Seq<DefnV>, after: NameSt) -> bool {
    &&& after.map.len() == st.map.len()
    &&& open_tops(after.ribs)
    &&& same_but_top(st.ribs, after.ribs)
    &&& forall|i: int|
        0 <= i < defs.len() ==> {
            let d = #[trigger] defs[i];
            &&& after.map[res_number(d.ident.value)] == Some(own_def(d.ident.value))
            &&& after.infos.contains_key(own_def(d.ident.value).0)
            &&& after.infos[own_def(d.ident.value).0] == d.info
            &&& after.ribs.of(d.ns).last().defs.contains_key(d.ident.value@)
            &&& is_last(defs, i) ==> after.ribs.of(d.ns).last().defs[d.ident.value@].def_id
                == own_def(d.ident.value)
        }
    &&& forall|ns: Namespace, name: Seq<char>|
        (forall|i: int|
            0 <= i < defs.len() ==> (#[trigger] defs[i]).ns != ns || defs[i].ident.value@ != name)
            ==> {
            let top = #[trigger] after.ribs.of(ns).last().defs.contains_key(name);
            &&& top == st.ribs.of(ns).last().defs.contains_key(name)
            &&& top ==> after.ribs.of(ns).last().defs[name] == st.ribs.of(ns).last().defs[name]
        }
    &&& forall|k: int|
        0 <= k < st.map.len() && (forall|i: int|
            0 <= i < defs.len() ==> res_number((#[trigger] defs[i]).ident.value) != k) ==> (
        #[trigger] after.map[k]) == st.map[k]
}

proof fn lemma_define_one(st: NameSt, before: NameSt, defs: Seq<DefnV>)
    requires
        defs.len() > 0,
        fresh(st, defs),
        open_tops(st.ribs),
        all_defined(st, defs.drop_last(), before),
    ensures
        all_defined(
            st,
            defs,
            before.define(defs.last().ns, defs.last().ident, defs.last().info),
        ),
{
    reveal(all_defined);
    let d = defs.last();
    let n = defs.len() - 1;
    let less = defs.drop_last();
    assert(d == defs[n]);
    let num = res_number(d.ident.value);
    assert(forall|i: int| 0 <= i < less.len() ==> #[trigger] less[i] == defs[i]);
    assert(before.map[num] is None) by {
        assert forall|i: int| 0 <= i < less.len() implies res_number(
            (#[trigger] less[i]).ident.value,
        ) != num by {
            assert(less[i] == defs[i]);
        }
    }
    assert(before.can_define(d.ident.value));
    let after = before.define(d.ns, d.ident, d.info);
    let top = before.ribs.of(d.ns).last();
    assert(after.ribs.of(d.ns).drop_last() =~= before.ribs.of(d.ns).drop_last());
    assert forall|i: int| 0 <= i < defs.len() implies {
        let e = #[trigger] defs[i];
        &&& after.map[res_number(e.ident.value)] == Some(own_def(e.ident.value))
        &&& after.infos.contains_key(own_def(e.ident.value).0)
        &&& after.infos[own_def(e.ident.value).0] == e.info
        &&& after.ribs.of(e.ns).last().defs.contains_key(e.ident.value@)
        &&& is_last(defs, i) ==> after.ribs.of(e.ns).last().defs[e.ident.value@].def_id == own_def(
            e.ident.value,
        )
    } by {
        if i < n {
            let e = defs[i];
            assert(less[i] == e);
            assert(res_number(e.ident.value) != num);
            if is_last(defs, i) {
                assert(is_last(less, i)) by {
                    assert forall|j: int| i < j < less.len() implies (#[trigger] less[j]).ns
                        != less[i].ns || less[j].ident.value@ != less[i].ident.value@ by {
                        assert(less[j] == defs[j]);
                    }
                }
                assert(defs[n].ns != e.ns || defs[n].ident.value@ != e.ident.value@);
            }
        }
    }
    assert forall|ns: Namespace, name: Seq<char>|
        (forall|i: int|
            0 <= i < defs.len() ==> (#[trigger] defs[i]).ns != ns || defs[i].ident.value@ != name) implies {
        let top = #[trigger] after.ribs.of(ns).last().defs.contains_key(name);
        &&& top == st.ribs.of(ns).last().defs.contains_key(name)
        &&& top ==> after.ribs.of(ns).last().defs[name] == st.ribs.of(ns).last().defs[name]
    } by {
        assert(defs[n].ns != ns || defs[n].ident.value@ != name);
        assert forall|i: int| 0 <= i < less.len() implies (#[trigger] less[i]).ns != ns
            || less[i].ident.value@ != name by {
            assert(less[i] == defs[i]);
        }
        assert(before.ribs.of(ns).last().defs.contains_key(name) == st.ribs.of(
            ns,
        ).last().defs.contains_key(name));
    }
    assert forall|k: int|
        0 <= k < st.map.len() && (forall|i: int|
            0 <= i < defs.len() ==> res_number((#[trigger] defs[i]).ident.value) != k) implies (
    #[trigger] after.map[k]) == st.map[k] by {
        assert(res_number(defs[n].ident.value) != k);
        assert forall|i: int| 0 <= i < less.len() implies res_number(
            (#[trigger] less[i]).ident.value,
        ) != k by {
            assert(less[i] == defs[i]);
        }
        assert(before.map[k] == st.map[k]);
    }
}

proof fn lemma_define_all(st: NameSt, defs: Seq<DefnV>)
    requires
        fresh(st, defs),
        open_tops(st.ribs),
    ensures
        all_defined(st, defs, define_all(st, defs)),
    decreases defs.len(),
{
    if defs.len() == 0 {
        reveal(all_defined);
    } else {
        let less = defs.drop_last();
        assert(fresh(st, less)) by {
            assert forall|i: int| 0 <= i < less.len() implies {
                let n = res_number((#[trigger] less[i]).ident.value);
                0 < n < st.map.len() && st.map[n] is None
            } by {
                assert(less[i] == defs[i]);
            }
            assert forall|i: int, j: int| 0 <= i < j < less.len() implies res_number(
                (#[trigger] less[i]).ident.value,
            ) != res_number((#[trigger] less[j]).ident.value) by {
                assert(less[i] == defs[i]);
                assert(less[j] == defs[j]);
            }
        }
        lemma_define_all(st, less);
        lemma_define_one(st, define_all(st, less), defs);
    }
}

/// A name that is given a meaning stands for it from there on, and all other names stand for what
/// they stood for.
pub proof fn law_definition_comes_into_scope(
    st: NameSt,
    ns: Namespace,
    ident: Sp<ResIdent>,
    info: InfoV,
    q: Query,
)
    requires
        open_tops(st.ribs),
        fresh(st, seq![DefnV { ns, ident, info }]),
    ensures
        ({
            let after = st.define(ns, ident, info);
            &&& after.info(ident.value) == Some(info)
            &&& after.map == st.map.update(
                res_number(ident.value),
                Some(own_def(ident.value)),
            )
            &&& resolve_spec(after.ribs.of(ns), q) == if q.name == ident.value@ {
                Ok(own_def(ident.value))
            } else {
                resolve_spec(st.ribs.of(ns), q)
            }
            &&& ns is Vars ==> after.ribs.funcs == st.ribs.funcs
            &&& ns is Funcs ==> after.ribs.vars == st.ribs.vars
            &&& after.diags.len() == st.diags.len() <==> !st.ribs.of(
                ns,
            ).last().defs.contains_key(ident.value@)
        }),
{
    let d = DefnV { ns, ident, info };
    let defs = seq![d];
    assert(defs[0] == d);
    let after = st.define(ns, ident, info);
    let ribs = st.ribs.of(ns);
    let now = after.ribs.of(ns);
    let below = ribs.drop_last();
    assert(now.drop_last() =~= below);
    assert(now =~= below.push(now.last()));
    assert(ribs =~= below.push(ribs.last()));
    if q.name != ident.value@ {
        lemma_top_only(below, ribs.last(), now.last(), q);
    }
}

/// Two ribs that give a name the same meaning make no difference to it.
proof fn lemma_top_only(below: Seq<RibV>, a: RibV, b: RibV, q: Query)
    requires
        a.kind == b.kind,
        a.kind.barrier_spec() is None,
        !(a.kind is Mapfile),
        a.defs.contains_key(q.name) == b.defs.contains_key(q.name),
        a.defs.contains_key(q.name) ==> a.defs[q.name] == b.defs[q.name],
    ensures
        resolve_spec(below.push(a), q) == resolve_spec(below.push(b), q),
{
    if a.defs.contains_key(q.name) {
        law_innermost_definition_wins(below, a, q);
        law_innermost_definition_wins(below, b, q);
    } else {
        law_other_names_show_through(below, a, q);
        law_other_names_show_through(below, b, q);
    }
}

/// What a name stands for behind definitions.
proof fn lemma_found(st: NameSt, defs: Seq<DefnV>, i: int, q: Query)
    requires
        fresh(st, defs),
        open_tops(st.ribs),
        0 <= i < defs.len(),
        is_last(defs, i),
        q.name == defs[i].ident.value@,
    ensures
        ({
            let after = define_all(st, defs);
            &&& resolve_spec(after.ribs.of(defs[i].ns), q) == Ok::<
                DefId,
                ResolveError<Seq<char>>,
            >(own_def(defs[i].ident.value))
            &&& after.info(defs[i].ident.value) == Some(defs[i].info)
            &&& open_tops(after.ribs)
            &&& same_but_top(st.ribs, after.ribs)
        }),
{
    lemma_define_all(st, defs);
    reveal(all_defined);
    let after = define_all(st, defs);
    let ribs = after.ribs.of(defs[i].ns);
    assert(ribs =~= ribs.drop_last().push(ribs.last()));
    law_innermost_definition_wins(ribs.drop_last(), ribs.last(), q);
}

// =============================================================================
// Parameters

/// The named parameters among the first `n`, as definitions.
pub open spec fn param_defs(params: Seq<Sp<FuncParam>>, n: nat) -> Seq<DefnV>
    decreases n,
{
    if n == 0 || n > params.len() {
        seq![]
    } else {
        let before = param_defs(params, (n - 1) as nat);
        match params[n - 1].value.ident {
            Some(ident) => before.push(
                DefnV {
                    ns: Namespace::Vars,
                    ident,
                    info: InfoV::Var { ty: params[n - 1].value.ty_keyword.value.var_ty_spec() },
                },
            ),
            None => before,
        }
    }
}

proof fn lemma_scope_params(st: NameSt, params: Seq<Sp<FuncParam>>, n: nat)
    requires
        n <= params.len(),
    ensures
        scope_params(st, params, n) == define_all(st, param_defs(params, n)),
    decreases n,
{
    if n > 0 {
        lemma_scope_params(st, params, (n - 1) as nat);
        if let Some(ident) = params[n - 1].value.ident {
            let before = param_defs(params, (n - 1) as nat);
            let all = param_defs(params, n);
            assert(all.drop_last() =~= before);
        }
    }
}

/// Where a named parameter stands among the definitions.
proof fn lemma_param_place(params: Seq<Sp<FuncParam>>, n: nat, i: int) -> (k: int)
    requires
        n <= params.len(),
        0 <= i < n,
        params[i].value.ident is Some,
        forall|j: int|
            i < j < n ==> ((#[trigger] params[j]).value.ident matches Some(other) ==> other.value@
                != params[i].value.ident->0.value@),
    ensures
        0 <= k < param_defs(params, n).len(),
        param_defs(params, n)[k].ident == params[i].value.ident->0,
        param_defs(params, n)[k].ns == Namespace::Vars,
        param_defs(params, n)[k].info == (InfoV::Var {
            ty: params[i].value.ty_keyword.value.var_ty_spec(),
        }),
        is_last(param_defs(params, n), k),
    decreases n,
{
    let all = param_defs(params, n);
    let before = param_defs(params, (n - 1) as nat);
    if i == n - 1 {
        before.len() as int
    } else {
        let k = lemma_param_place(params, (n - 1) as nat, i);
        assert forall|j: int| k < j < all.len() implies (#[trigger] all[j]).ns != all[k].ns
            || all[j].ident.value@ != all[k].ident.value@ by {
            if j < before.len() {
                assert(all[j] == before[j]);
            } else {
                assert(all[j].ident == params[n - 1].value.ident->0);
            }
        }
        k
    }
}

/// Whether a parameter has a name, and none behind it has the name.
pub open spec fn is_last_param(params: Seq<Sp<FuncParam>>, i: int, name: Seq<char>) -> bool {
    &&& params[i].value.ident matches Some(ident) && ident.value@ == name
    &&& forall|j: int|
        i < j < params.len() ==> ((#[trigger] params[j]).value.ident matches Some(other)
            ==> other.value@ != name)
}

/// Whether no parameter has a name.
pub open spec fn no_param(params: Seq<Sp<FuncParam>>, name: Seq<char>) -> bool {
    forall|j: int|
        0 <= j < params.len() ==> ((#[trigger] params[j]).value.ident matches Some(other)
            ==> other.value@ != name)
}

/// Where the body of a function starts, the name of each of its parameters stands for the
/// parameter, and the last one of a name that is repeated.  It is a variable of the type of its
/// keyword.  No local from around the function can be named, unless by a parameter of that name.
pub proof fn law_parameters_are_in_scope(
    st: NameSt,
    params: Seq<Sp<FuncParam>>,
    i: int,
    q: Query,
)
    requires
        rooted(st.ribs),
        st.ribs.funcs.last().kind.barrier_spec() is None,
        !(st.ribs.funcs.last().kind is Mapfile),
        fresh(st, param_defs(params, params.len())),
        0 <= i < params.len(),
    ensures
        ({
            let inside = enter_func(st, params);
            &&& is_last_param(params, i, q.name) ==> {
                let ident = params[i].value.ident->0.value;
                &&& resolve_spec(inside.ribs.vars, q) == Ok::<DefId, ResolveError<Seq<char>>>(
                    own_def(ident),
                )
                &&& inside.info(ident) == Some(
                    InfoV::Var { ty: params[i].value.ty_keyword.value.var_ty_spec() },
                )
            }
            &&& no_param(params, q.name) ==> (resolve_spec(inside.ribs.vars, q) matches Ok(def)
                ==> given_by_item(st.ribs.vars, q.name, def))
            &&& inside.ribs.funcs == st.ribs.funcs
        }),
{
    let barrier = RibV {
        ns: Namespace::Vars,
        kind: RibKind::LocalBarrier { of_what: BarrierKind::Function },
        defs: Map::empty(),
    };
    let start = st.enter(Namespace::Vars, barrier.kind).enter(Namespace::Vars, RibKind::Params);
    assert(start.ribs.vars.drop_last() =~= st.ribs.vars.push(barrier));
    let defs = param_defs(params, params.len());
    lemma_scope_params(start, params, params.len());
    assert(fresh(start, defs));
    lemma_define_all(start, defs);
    let inside = enter_func(st, params);
    if is_last_param(params, i, q.name) {
        let k = lemma_param_place(params, params.len(), i);
        lemma_found(start, defs, k, q);
    }
    if no_param(params, q.name) {
        lemma_param_names(params, params.len(), q.name);
        reveal(all_defined);
        assert(!inside.ribs.of(Namespace::Vars).last().defs.contains_key(q.name));
        let top = inside.ribs.vars.last();
        assert(inside.ribs.vars =~= st.ribs.vars.push(barrier).push(top));
        law_other_names_show_through(st.ribs.vars.push(barrier), top, q);
        law_barrier_hides_locals(st.ribs.vars, barrier, q);
    }
    lemma_only_vars(start, params, params.len());
}

proof fn lemma_param_names(params: Seq<Sp<FuncParam>>, n: nat, name: Seq<char>)
    requires
        n <= params.len(),
        forall|j: int|
            0 <= j < params.len() ==> ((#[trigger] params[j]).value.ident matches Some(other)
                ==> other.value@ != name),
    ensures
        forall|k: int|
            0 <= k < param_defs(params, n).len() ==> (#[trigger] param_defs(params, n)[k]).ident.value@
                != name,
    decreases n,
{
    if n > 0 {
        lemma_param_names(params, (n - 1) as nat, name);
        let before = param_defs(params, (n - 1) as nat);
        let all = param_defs(params, n);
        assert forall|k: int| 0 <= k < all.len() implies (#[trigger] all[k]).ident.value@ != name by {
            if k < before.len() {
                assert(all[k] == before[k]);
            }
        }
    }
}

proof fn lemma_only_vars(st: NameSt, params: Seq<Sp<FuncParam>>, n: nat)
    ensures
        scope_params(st, params, n).ribs.funcs == st.ribs.funcs,
    decreases n,
{
    if n > 0 {
        lemma_only_vars(st, params, (n - 1) as nat);
    }
}

// =============================================================================
// Items

/// What the first `n` constants of an item define.
pub open spec fn const_defs(ty: VarType, vars: Seq<Sp<(Sp<Var>, Sp<Expr>)>>, n: nat) -> Seq<DefnV>
    decreases n,
{
    if n == 0 || n > vars.len() {
        seq![]
    } else {
        let before = const_defs(ty, vars, (n - 1) as nat);
        let var = vars[n - 1].value.0;
        match var.value.name {
            VarName::Normal { ident, .. } => before.push(
                DefnV {
                    ns: Namespace::Vars,
                    ident: Spanned { span: var.span, value: ident },
                    info: InfoV::Var { ty },
                },
            ),
            VarName::Reg { .. } => before,
        }
    }
}

/// What an item defines: a function its name, and constants theirs.
pub open spec fn item_defs(item: Sp<Item>) -> Seq<DefnV> {
    match item.value {
        Item::Func(func) => seq![
            DefnV {
                ns: Namespace::Funcs,
                ident: func.ident,
                info: InfoV::Func { siggy: declared_sig(func.ty_keyword, func.params@) },
            },
        ],
        Item::ConstVar { ty_keyword, vars } => const_defs(
            ty_keyword.value.var_ty_spec(),
            vars@,
            vars@.len(),
        ),
        _ => seq![],
    }
}

/// Whether the constants of an item have names, and are not registers.
pub open spec fn item_names_ok(item: Sp<Item>) -> bool {
    item.value matches Item::ConstVar { vars, .. } ==> forall|i: int|
        0 <= i < vars@.len() ==> (#[trigger] vars@[i]).value.0.value.name is Normal
}

/// What the first `n` items define.
pub open spec fn items_defs(items: Seq<Sp<Item>>, n: nat) -> Seq<DefnV>
    decreases n,
{
    if n == 0 || n > items.len() {
        seq![]
    } else {
        items_defs(items, (n - 1) as nat) + item_defs(items[n - 1])
    }
}

/// What the items among the first `n` statements define.
pub open spec fn stmts_defs(stmts: Seq<Sp<Stmt>>, n: nat) -> Seq<DefnV>
    decreases n,
{
    if n == 0 || n > stmts.len() {
        seq![]
    } else {
        let before = stmts_defs(stmts, (n - 1) as nat);
        match stmts[n - 1].value.kind {
            StmtKind::Item(item) => before + item_defs(*item),
            _ => before,
        }
    }
}

proof fn lemma_define_both(st: NameSt, a: Seq<DefnV>, b: Seq<DefnV>)
    ensures
        define_all(st, a + b) == define_all(define_all(st, a), b),
    decreases b.len(),
{
    if b.len() == 0 {
        assert(a + b =~= a);
    } else {
        lemma_define_both(st, a, b.drop_last());
        assert((a + b).drop_last() =~= a + b.drop_last());
        assert((a + b).last() == b.last());
    }
}

proof fn lemma_scope_consts(
    st: NameSt,
    ty: VarType,
    vars: Seq<Sp<(Sp<Var>, Sp<Expr>)>>,
    n: nat,
)
    requires
        n <= vars.len(),
        forall|i: int|
            0 <= i < vars.len() ==> (#[trigger] vars[i]).value.0.value.name is Normal,
    ensures
        scope_consts(st, ty, vars, n) == define_all(st, const_defs(ty, vars, n)),
    decreases n,
{
    if n > 0 {
        lemma_scope_consts(st, ty, vars, (n - 1) as nat);
        let before = const_defs(ty, vars, (n - 1) as nat);
        let all = const_defs(ty, vars, n);
        assert(vars[n - 1].value.0.value.name is Normal);
        assert(all.drop_last() =~= before);
    }
}

proof fn lemma_scope_item(st: NameSt, item: Sp<Item>)
    requires
        item_names_ok(item),
    ensures
        scope_item(st, item) == define_all(st, item_defs(item)),
{
    match item.value {
        Item::Func(func) => {
            let defs = item_defs(item);
            assert(defs.drop_last() =~= seq![]);
            assert(define_all(st, defs.drop_last()) == st);
        },
        Item::ConstVar { ty_keyword, vars } => {
            lemma_scope_consts(st, ty_keyword.value.var_ty_spec(), vars@, vars@.len());
        },
        _ => {},
    }
}

proof fn lemma_scope_items(st: NameSt, items: Seq<Sp<Item>>, n: nat)
    requires
        n <= items.len(),
        forall|i: int| 0 <= i < items.len() ==> item_names_ok(#[trigger] items[i]),
    ensures
        scope_items(st, items, n) == define_all(st, items_defs(items, n)),
    decreases n,
{
    if n > 0 {
        lemma_scope_items(st, items, (n - 1) as nat);
        assert(item_names_ok(items[n - 1]));
        lemma_scope_item(scope_items(st, items, (n - 1) as nat), items[n - 1]);
        lemma_define_both(st, items_defs(items, (n - 1) as nat), item_defs(items[n - 1]));
    }
}

/// Whether the items among statements have names.
pub open spec fn stmt_names_ok(stmt: Sp<Stmt>) -> bool {
    stmt.value.kind matches StmtKind::Item(item) ==> item_names_ok(*item)
}

proof fn lemma_scope_stmts(st: NameSt, stmts: Seq<Sp<Stmt>>, n: nat)
    requires
        n <= stmts.len(),
        forall|i: int| 0 <= i < stmts.len() ==> stmt_names_ok(#[trigger] stmts[i]),
    ensures
        scope_stmts(st, stmts, n) == define_all(st, stmts_defs(stmts, n)),
    decreases n,
{
    if n > 0 {
        lemma_scope_stmts(st, stmts, (n - 1) as nat);
        assert(stmt_names_ok(stmts[n - 1]));
        if let StmtKind::Item(item) = stmts[n - 1].value.kind {
            lemma_scope_item(scope_stmts(st, stmts, (n - 1) as nat), *item);
            lemma_define_both(st, stmts_defs(stmts, (n - 1) as nat), item_defs(*item));
        }
    }
}

/// Where a block starts, the names of all functions and constants that are defined anywhere in it
/// stand for them, and the last one of a name that is repeated.  All other names stand for what
/// they stood for around the block.
pub proof fn law_items_are_in_scope_in_block(
    st: NameSt,
    stmts: Seq<Sp<Stmt>>,
    i: int,
    q: Query,
)
    requires
        rooted(st.ribs),
        fresh(st, stmts_defs(stmts, stmts.len())),
        forall|k: int| 0 <= k < stmts.len() ==> stmt_names_ok(#[trigger] stmts[k]),
    ensures
        ({
            let defs = stmts_defs(stmts, stmts.len());
            let inside = enter_block(st, stmts);
            &&& 0 <= i < defs.len() && is_last(defs, i) && q.name == defs[i].ident.value@ ==> {
                &&& resolve_spec(inside.ribs.of(defs[i].ns), q) == Ok::<
                    DefId,
                    ResolveError<Seq<char>>,
                >(own_def(defs[i].ident.value))
                &&& inside.info(defs[i].ident.value) == Some(defs[i].info)
            }
            &&& forall|ns: Namespace|
                (forall|k: int|
                    0 <= k < defs.len() ==> (#[trigger] defs[k]).ns != ns || defs[k].ident.value@
                        != q.name) ==> resolve_spec(#[trigger] inside.ribs.of(ns), q)
                    == resolve_spec(st.ribs.of(ns), q)
        }),
{
    let defs = stmts_defs(stmts, stmts.len());
    let empty_vars = RibV { ns: Namespace::Vars, kind: RibKind::Items, defs: Map::empty() };
    let empty_funcs = RibV { ns: Namespace::Funcs, kind: RibKind::Items, defs: Map::empty() };
    let start = st.enter(Namespace::Funcs, RibKind::Items).enter(Namespace::Vars, RibKind::Items);
    assert(start.ribs.vars.drop_last() =~= st.ribs.vars);
    assert(start.ribs.funcs.drop_last() =~= st.ribs.funcs);
    assert(fresh(start, defs));
    lemma_scope_stmts(start, stmts, stmts.len());
    lemma_define_all(start, defs);
    let scoped = define_all(start, defs);
    let inside = enter_block(st, stmts);
    let locals = RibV { ns: Namespace::Vars, kind: RibKind::Locals, defs: Map::empty() };
    assert(inside.ribs.vars == scoped.ribs.vars.push(locals));
    law_other_names_show_through(scoped.ribs.vars, locals, q);
    if 0 <= i < defs.len() && is_last(defs, i) && q.name == defs[i].ident.value@ {
        lemma_found(start, defs, i, q);
    }
    reveal(all_defined);
    assert forall|ns: Namespace|
        (forall|k: int|
            0 <= k < defs.len() ==> (#[trigger] defs[k]).ns != ns || defs[k].ident.value@
                != q.name) implies resolve_spec(#[trigger] inside.ribs.of(ns), q) == resolve_spec(
        st.ribs.of(ns),
        q,
    ) by {
        let top = scoped.ribs.of(ns).last();
        assert(scoped.ribs.of(ns).last().defs.contains_key(q.name) == start.ribs.of(
            ns,
        ).last().defs.contains_key(q.name));
        assert(scoped.ribs.of(ns) =~= st.ribs.of(ns).push(top));
        law_other_names_show_through(st.ribs.of(ns), top, q);
    }
}

/// In a file, the names of all its functions and constants stand for them everywhere, and the last
/// one of a name that is repeated.
pub proof fn law_items_are_in_scope_in_file(
    st: NameSt,
    items: Seq<Sp<Item>>,
    i: int,
    q: Query,
)
    requires
        rooted(st.ribs),
        fresh(st, items_defs(items, items.len())),
        forall|k: int| 0 <= k < items.len() ==> item_names_ok(#[trigger] items[k]),
        0 <= i < items_defs(items, items.len()).len(),
        is_last(items_defs(items, items.len()), i),
        q.name == items_defs(items, items.len())[i].ident.value@,
    ensures
        ({
            let d = items_defs(items, items.len())[i];
            let start = st.enter(Namespace::Vars, RibKind::Items).enter(
                Namespace::Funcs,
                RibKind::Items,
            );
            let inside = scope_items(start, items, items.len());
            &&& resolve_spec(inside.ribs.of(d.ns), q) == Ok::<DefId, ResolveError<Seq<char>>>(
                own_def(d.ident.value),
            )
            &&& inside.info(d.ident.value) == Some(d.info)
        }),
{
    let defs = items_defs(items, items.len());
    let start = st.enter(Namespace::Vars, RibKind::Items).enter(Namespace::Funcs, RibKind::Items);
    assert(start.ribs.vars.drop_last() =~= st.ribs.vars);
    assert(start.ribs.funcs.drop_last() =~= st.ribs.funcs);
    assert(fresh(start, defs));
    lemma_scope_items(start, items, items.len());
    lemma_found(start, defs, i, q);
}

/// The signature that a function is declared with has the types of the keywords, in their order.
pub proof fn law_declared_signature(
    ty_keyword: Sp<TypeKeyword>,
    params: Seq<Sp<FuncParam>>,
    i: int,
)
    ensures
        ({
            let siggy = declared_sig(ty_keyword, params);
            &&& siggy.return_ty.value == ty_keyword.value.expr_ty_spec()
            &&& siggy.params.len() == params.len()
            &&& 0 <= i < params.len() ==> {
                &&& siggy.params[i].ty.value == params[i].value.ty_keyword.value.var_ty_spec()
                &&& !siggy.params[i].optional
                &&& siggy.params[i].color is None
            }
        }),
{
}

// =============================================================================
// Mentions

/// What the mention of a variable stands for.  A name that stands for some constant of an enum is
/// one of the enum that is expected, if that has it, and else of the only one that has it.
pub open spec fn var_means(
    cx: DefTables,
    ribs: StacksV,
    color: ColorV,
    var: Sp<Var>,
    ident: ResIdent,
    language: Option<LanguageKey>,
) -> Option<DefId> {
    let q = Query {
        ns: Namespace::Vars,
        span: var.span,
        alias_language: language,
        name: ident@,
    };
    match resolve_spec(ribs.vars, q) {
        Err(_) => None,
        Ok(def) => if def != cx.enum_const_dummy {
            Some(def)
        } else if color is Some && cx.enum_const_def_spec(color->0, ident@) is Some {
            cx.enum_const_def_spec(color->0, ident@)
        } else {
            match cx.unqualified_spec(ident@) {
                Some(i) => Some(cx.enum_consts@[i].def_id),
                None => None,
            }
        },
    }
}

/// Whether a variable that is mentioned stands for what `ok` says of the mention.
pub open spec fn var_ok(
    cx: DefTables,
    ribs: StacksV,
    ok: spec_fn(ResIdent, DefId) -> bool,
    color: ColorV,
    var: Sp<Var>,
) -> bool {
    match var.value.name {
        VarName::Reg { .. } => true,
        VarName::Normal { ident, language_if_reg } => var_means(
            cx,
            ribs,
            color,
            var,
            ident,
            language_if_reg,
        ) matches Some(def) && ok(ident, def),
    }
}

/// What a name that is called stands for.
pub open spec fn callee(ribs: StacksV, name: Sp<CallableName>) -> Option<DefId> {
    match name.value {
        CallableName::Ins { .. } => None,
        CallableName::Normal { ident, language_if_ins } => match resolve_spec(
            ribs.funcs,
            Query {
                ns: Namespace::Funcs,
                span: name.span,
                alias_language: language_if_ins,
                name: ident@,
            },
        ) {
            Ok(def) => Some(def),
            Err(_) => None,
        },
    }
}

/// What the parameters of what is called expect, if it is known.
pub open spec fn expected_colors(
    cx: DefTables,
    infos: Map<u32, InfoV>,
    ribs: StacksV,
    name: Sp<CallableName>,
) -> Option<Seq<ColorV>> {
    let siggy = match name.value {
        CallableName::Ins { opcode, language } => match language {
            Some(language) => ins_sig(cx, language, opcode),
            None => None,
        },
        CallableName::Normal { .. } => match callee(ribs, name) {
            Some(def) => if infos.contains_key(def.0) {
                match infos[def.0] {
                    InfoV::Func { siggy } => Some(siggy),
                    InfoV::InsAlias { language, opcode } => ins_sig(cx, language, opcode),
                    _ => None,
                }
            } else {
                None
            },
            None => None,
        },
    };
    match siggy {
        Some(siggy) => Some(siggy.params.map_values(|p: ParamV| p.color)),
        None => None,
    }
}

/// Whether every name in an expression stands for what `ok` says of the mention.  Arguments behind
/// the last parameter of what is called are not looked at.
pub open spec fn expr_ok(
    cx: DefTables,
    infos: Map<u32, InfoV>,
    ribs: StacksV,
    ok: spec_fn(ResIdent, DefId) -> bool,
    color: ColorV,
    e: Sp<Expr>,
) -> bool
    decreases e, 0nat,
{
    match e.value {
        Expr::Ternary { cond, left, right, .. } => {
            &&& expr_ok(cx, infos, ribs, ok, color, *cond)
            &&& expr_ok(cx, infos, ribs, ok, color, *left)
            &&& expr_ok(cx, infos, ribs, ok, color, *right)
        },
        Expr::BinOp(a, _, b) => {
            &&& expr_ok(cx, infos, ribs, ok, color, *a)
            &&& expr_ok(cx, infos, ribs, ok, color, *b)
        },
        Expr::UnOp(_, x) => expr_ok(cx, infos, ribs, ok, color, *x),
        Expr::XcrementOp { var, .. } => var_ok(cx, ribs, ok, color, var),
        Expr::Var(var) => var_ok(cx, ribs, ok, color, var),
        Expr::DiffSwitch(cases) => cases_ok(cx, infos, ribs, ok, color, cases@, cases@.len()),
        Expr::Call(call) => call_ok(cx, infos, ribs, ok, color, call),
        Expr::EnumConst { enum_name, ident } => cx.enum_const_def_spec(
            enum_name.value@,
            ident.value@,
        ) matches Some(def) && ok(ident.value, def),
        _ => true,
    }
}

/// Whether the names in the first `n` cases of a switch stand for what they should.
pub open spec fn cases_ok(
    cx: DefTables,
    infos: Map<u32, InfoV>,
    ribs: StacksV,
    ok: spec_fn(ResIdent, DefId) -> bool,
    color: ColorV,
    cases: Seq<Option<Sp<Expr>>>,
    n: nat,
) -> bool
    decreases cases, n,
{
    if n == 0 || n > cases.len() {
        true
    } else {
        &&& cases_ok(cx, infos, ribs, ok, color, cases, (n - 1) as nat)
        &&& match cases[n - 1] {
            Some(case) => expr_ok(cx, infos, ribs, ok, color, case),
            None => true,
        }
    }
}

/// Whether the names in a call stand for what they should.
pub open spec fn call_ok(
    cx: DefTables,
    infos: Map<u32, InfoV>,
    ribs: StacksV,
    ok: spec_fn(ResIdent, DefId) -> bool,
    color: ColorV,
    call: ExprCall,
) -> bool
    decreases call, 0nat,
{
    &&& pseudos_ok(cx, infos, ribs, ok, color, call.pseudos@, call.pseudos@.len())
    &&& match call.name.value {
        CallableName::Ins { .. } => true,
        CallableName::Normal { ident, .. } => callee(ribs, call.name) matches Some(def) && ok(
            ident,
            def,
        ),
    }
    &&& args_ok(
        cx,
        infos,
        ribs,
        ok,
        color,
        expected_colors(cx, infos, ribs, call.name),
        call.args@,
        call.args@.len(),
    )
}

/// Whether the names in the first `n` pseudo-arguments stand for what they should.
pub open spec fn pseudos_ok(
    cx: DefTables,
    infos: Map<u32, InfoV>,
    ribs: StacksV,
    ok: spec_fn(ResIdent, DefId) -> bool,
    color: ColorV,
    pseudos: Seq<Sp<PseudoArg>>,
    n: nat,
) -> bool
    decreases pseudos, n,
{
    if n == 0 || n > pseudos.len() {
        true
    } else {
        &&& pseudos_ok(cx, infos, ribs, ok, color, pseudos, (n - 1) as nat)
        &&& expr_ok(cx, infos, ribs, ok, color, pseudos[n - 1].value.value)
    }
}

/// Whether the names in the first `n` arguments stand for what they should.
pub open spec fn args_ok(
    cx: DefTables,
    infos: Map<u32, InfoV>,
    ribs: StacksV,
    ok: spec_fn(ResIdent, DefId) -> bool,
    color: ColorV,
    params: Option<Seq<ColorV>>,
    args: Seq<Sp<Expr>>,
    n: nat,
) -> bool
    decreases args, n,
{
    if n == 0 || n > args.len() {
        true
    } else {
        &&& args_ok(cx, infos, ribs, ok, color, params, args, (n - 1) as nat)
        &&& match params {
            None => expr_ok(cx, infos, ribs, ok, color, args[n - 1]),
            Some(colors) => n <= colors.len() ==> expr_ok(
                cx,
                infos,
                ribs,
                ok,
                colors[n - 1],
                args[n - 1],
            ),
        }
    }
}

/// The meanings that mentions have been given.
pub open spec fn given(map: Seq<Option<DefId>>) -> spec_fn(ResIdent, DefId) -> bool {
    |ident: ResIdent, def: DefId|
        0 < res_number(ident) < map.len() && map[res_number(ident)] == Some(def)
}

/// Whether mentions that have a meaning keep it.
pub open spec fn keeps(before: Seq<Option<DefId>>, after: Seq<Option<DefId>>) -> bool {
    &&& before.len() == after.len()
    &&& forall|k: int|
        0 <= k < before.len() && (#[trigger] before[k]) is Some ==> after[k] == before[k]
}

/// Whether resolving has only given meanings to mentions, and has not taken anything back.
pub open spec fn goes_on(st: NameSt, after: NameSt) -> bool {
    &&& keeps(st.map, after.map)
    &&& st.diags.len() <= after.diags.len()
}

proof fn lemma_record(st: NameSt, ident: ResIdent, def: DefId, span: Span)
    ensures
        goes_on(st, st.record(ident, def, span)),
        st.record(ident, def, span).infos == st.infos,
        st.record(ident, def, span).ribs == st.ribs,
        st.record(ident, def, span).diags.len() == st.diags.len() ==> given(
            st.record(ident, def, span).map,
        )(ident, def),
{
}

proof fn lemma_given_later(a: Seq<Option<DefId>>, b: Seq<Option<DefId>>, ident: ResIdent, def: DefId)
    requires
        keeps(a, b),
        given(a)(ident, def),
    ensures
        given(b)(ident, def),
{
    assert(a[res_number(ident)] is Some);
}

proof fn lemma_var(cx: DefTables, st: NameSt, color: ColorV, var: Sp<Var>, fin: Seq<Option<DefId>>)
    ensures
        ({
            let after = res_var(cx, st, color, var);
            &&& goes_on(st, after)
            &&& after.infos == st.infos
            &&& after.ribs == st.ribs
            &&& after.diags.len() == st.diags.len() && keeps(after.map, fin) ==> var_ok(
                cx,
                st.ribs,
                given(fin),
                color,
                var,
            )
        }),
{
    if let VarName::Normal { ident, language_if_reg } = var.value.name {
        let after = res_var(cx, st, color, var);
        if after.diags.len() == st.diags.len() && keeps(after.map, fin) {
            let def = var_means(cx, st.ribs, color, var, ident, language_if_reg)->0;
            lemma_record(st, ident, def, var.span);
            lemma_given_later(after.map, fin, ident, def);
        }
    }
}

#[verifier::rlimit(40)]
proof fn lemma_expr(cx: DefTables, st: NameSt, color: ColorV, e: Sp<Expr>, fin: Seq<Option<DefId>>)
    ensures
        ({
            let after = res_expr(cx, st, color, e);
            &&& goes_on(st, after)
            &&& after.infos == st.infos
            &&& after.ribs == st.ribs
            &&& after.diags.len() == st.diags.len() && keeps(after.map, fin) ==> expr_ok(
                cx,
                st.infos,
                st.ribs,
                given(fin),
                color,
                e,
            )
        }),
    decreases e, 0nat,
{
    match e.value {
        Expr::Ternary { cond, left, right, .. } => {
            lemma_expr(cx, st, color, *cond, fin);
            let st1 = res_expr(cx, st, color, *cond);
            lemma_expr(cx, st1, color, *left, fin);
            let st2 = res_expr(cx, st1, color, *left);
            lemma_expr(cx, st2, color, *right, fin);
        },
        Expr::BinOp(a, _, b) => {
            lemma_expr(cx, st, color, *a, fin);
            lemma_expr(cx, res_expr(cx, st, color, *a), color, *b, fin);
        },
        Expr::UnOp(_, x) => lemma_expr(cx, st, color, *x, fin),
        Expr::XcrementOp { var, .. } => lemma_var(cx, st, color, var, fin),
        Expr::Var(var) => lemma_var(cx, st, color, var, fin),
        Expr::DiffSwitch(cases) => lemma_cases(cx, st, color, cases@, cases@.len(), fin),
        Expr::Call(call) => {
            lemma_call(cx, st, color, call, fin);
            assert(res_expr(cx, st, color, e) == res_call(cx, st, color, call));
        },
        Expr::EnumConst { enum_name, ident } => {
            let after = res_expr(cx, st, color, e);
            if let Some(def) = cx.enum_const_def_spec(enum_name.value@, ident.value@) {
                lemma_record(st, ident.value, def, e.span);
                if after.diags.len() == st.diags.len() && keeps(after.map, fin) {
                    lemma_given_later(after.map, fin, ident.value, def);
                }
            }
        },
        _ => {},
    }
}

proof fn lemma_cases(
    cx: DefTables,
    st: NameSt,
    color: ColorV,
    cases: Seq<Option<Sp<Expr>>>,
    n: nat,
    fin: Seq<Option<DefId>>,
)
    ensures
        ({
            let after = res_cases(cx, st, color, cases, n);
            &&& goes_on(st, after)
            &&& after.infos == st.infos
            &&& after.ribs == st.ribs
            &&& after.diags.len() == st.diags.len() && keeps(after.map, fin) ==> cases_ok(
                cx,
                st.infos,
                st.ribs,
                given(fin),
                color,
                cases,
                n,
            )
        }),
    decreases cases, n,
{
    if n > 0 && n <= cases.len() {
        lemma_cases(cx, st, color, cases, (n - 1) as nat, fin);
        if let Some(case) = cases[n - 1] {
            lemma_expr(cx, res_cases(cx, st, color, cases, (n - 1) as nat), color, case, fin);
        }
    }
}

proof fn lemma_pseudos(
    cx: DefTables,
    st: NameSt,
    color: ColorV,
    pseudos: Seq<Sp<PseudoArg>>,
    n: nat,
    fin: Seq<Option<DefId>>,
)
    ensures
        ({
            let after = res_pseudos(cx, st, color, pseudos, n);
            &&& goes_on(st, after)
            &&& after.infos == st.infos
            &&& after.ribs == st.ribs
            &&& after.diags.len() == st.diags.len() && keeps(after.map, fin) ==> pseudos_ok(
                cx,
                st.infos,
                st.ribs,
                given(fin),
                color,
                pseudos,
                n,
            )
        }),
    decreases pseudos, n,
{
    if n > 0 && n <= pseudos.len() {
        lemma_pseudos(cx, st, color, pseudos, (n - 1) as nat, fin);
        lemma_expr(
            cx,
            res_pseudos(cx, st, color, pseudos, (n - 1) as nat),
            color,
            pseudos[n - 1].value.value,
            fin,
        );
    }
}

proof fn lemma_args(
    cx: DefTables,
    st: NameSt,
    color: ColorV,
    params: Option<Seq<ColorV>>,
    args: Seq<Sp<Expr>>,
    n: nat,
    fin: Seq<Option<DefId>>,
)
    ensures
        ({
            let after = res_args(cx, st, color, params, args, n);
            &&& goes_on(st, after)
            &&& after.infos == st.infos
            &&& after.ribs == st.ribs
            &&& after.diags.len() == st.diags.len() && keeps(after.map, fin) ==> args_ok(
                cx,
                st.infos,
                st.ribs,
                given(fin),
                color,
                params,
                args,
                n,
            )
        }),
    decreases args, n,
{
    if n > 0 && n <= args.len() {
        lemma_args(cx, st, color, params, args, (n - 1) as nat, fin);
        let mid = res_args(cx, st, color, params, args, (n - 1) as nat);
        match params {
            None => lemma_expr(cx, mid, color, args[n - 1], fin),
            Some(colors) => {
                if n <= colors.len() {
                    lemma_expr(cx, mid, colors[n - 1], args[n - 1], fin);
                }
            },
        }
    }
}

#[verifier::rlimit(40)]
proof fn lemma_call(
    cx: DefTables,
    st: NameSt,
    color: ColorV,
    call: ExprCall,
    fin: Seq<Option<DefId>>,
)
    ensures
        ({
            let after = res_call(cx, st, color, call);
            &&& goes_on(st, after)
            &&& after.infos == st.infos
            &&& after.ribs == st.ribs
            &&& after.diags.len() == st.diags.len() && keeps(after.map, fin) ==> call_ok(
                cx,
                st.infos,
                st.ribs,
                given(fin),
                color,
                call,
            )
        }),
    decreases call, 0nat,
{
    lemma_pseudos(cx, st, color, call.pseudos@, call.pseudos@.len(), fin);
    let st1 = res_pseudos(cx, st, color, call.pseudos@, call.pseudos@.len());
    let (found, st2) = res_callable(st1, call.name);
    if let CallableName::Normal { ident, .. } = call.name.value {
        if let Some(def) = callee(st.ribs, call.name) {
            lemma_record(st1, ident, def, call.name.span);
        }
    }
    assert(goes_on(st1, st2));
    let siggy = if found {
        st2.signature(cx, call.name.value)
    } else {
        None
    };
    let colors = colors_of(siggy);
    lemma_args(cx, st2, color, colors, call.args@, call.args@.len(), fin);
    let after = res_call(cx, st, color, call);
    if after.diags.len() == st.diags.len() && keeps(after.map, fin) {
        if let CallableName::Normal { ident, .. } = call.name.value {
            let def = callee(st.ribs, call.name)->0;
            assert(given(st2.map)(ident, def));
            lemma_given_later(st2.map, fin, ident, def);
            assert(st2.info(ident) == if st.infos.contains_key(def.0) {
                Some(st.infos[def.0])
            } else {
                None
            });
        }
        assert(colors == expected_colors(cx, st.infos, st.ribs, call.name));
    }
}

/// Where nothing is said about an expression, every name in it has been given the meaning that it
/// has where the expression stands.
pub proof fn law_names_in_expressions_are_resolved(
    cx: DefTables,
    st: NameSt,
    color: ColorV,
    e: Sp<Expr>,
)
    ensures
        ({
            let after = res_expr(cx, st, color, e);
            after.diags.len() == st.diags.len() ==> expr_ok(
                cx,
                st.infos,
                st.ribs,
                given(after.map),
                color,
                e,
            )
        }),
{
    lemma_expr(cx, st, color, e, res_expr(cx, st, color, e).map);
}

// -----------------------------------------------------------------------------

/// The mentions in a variable.
pub open spec fn var_mentions(var: Sp<Var>) -> Seq<ResIdent> {
    match var.value.name {
        VarName::Reg { .. } => seq![],
        VarName::Normal { ident, .. } => seq![ident],
    }
}

/// The mentions in an expression.
pub open spec fn mentions(e: Sp<Expr>) -> Seq<ResIdent>
    decreases e, 0nat,
{
    match e.value {
        Expr::Ternary { cond, left, right, .. } => mentions(*cond) + mentions(*left) + mentions(
            *right,
        ),
        Expr::BinOp(a, _, b) => mentions(*a) + mentions(*b),
        Expr::UnOp(_, x) => mentions(*x),
        Expr::XcrementOp { var, .. } => var_mentions(var),
        Expr::Var(var) => var_mentions(var),
        Expr::DiffSwitch(cases) => case_mentions(cases@, cases@.len()),
        Expr::Call(call) => call_mentions(call),
        Expr::EnumConst { ident, .. } => seq![ident.value],
        _ => seq![],
    }
}

/// The mentions in the first `n` cases of a switch.
pub open spec fn case_mentions(cases: Seq<Option<Sp<Expr>>>, n: nat) -> Seq<ResIdent>
    decreases cases, n,
{
    if n == 0 || n > cases.len() {
        seq![]
    } else {
        case_mentions(cases, (n - 1) as nat) + match cases[n - 1] {
            Some(case) => mentions(case),
            None => seq![],
        }
    }
}

/// The mentions in a call.
pub open spec fn call_mentions(call: ExprCall) -> Seq<ResIdent>
    decreases call, 0nat,
{
    pseudo_mentions(call.pseudos@, call.pseudos@.len()) + (match call.name.value {
        CallableName::Ins { .. } => seq![],
        CallableName::Normal { ident, .. } => seq![ident],
    }) + arg_mentions(call.args@, call.args@.len())
}

/// The mentions in the first `n` pseudo-arguments.
pub open spec fn pseudo_mentions(pseudos: Seq<Sp<PseudoArg>>, n: nat) -> Seq<ResIdent>
    decreases pseudos, n,
{
    if n == 0 || n > pseudos.len() {
        seq![]
    } else {
        pseudo_mentions(pseudos, (n - 1) as nat) + mentions(pseudos[n - 1].value.value)
    }
}

/// The mentions in the first `n` arguments.
pub open spec fn arg_mentions(args: Seq<Sp<Expr>>, n: nat) -> Seq<ResIdent>
    decreases args, n,
{
    if n == 0 || n > args.len() {
        seq![]
    } else {
        arg_mentions(args, (n - 1) as nat) + mentions(args[n - 1])
    }
}

/// Whether mentions are counted and have no meaning yet, and no two are one.
pub open spec fn unresolved(map: Seq<Option<DefId>>, ids: Seq<ResIdent>) -> bool {
    &&& forall|i: int|
        0 <= i < ids.len() ==> 0 < res_number(#[trigger] ids[i]) < map.len() && map[res_number(
            ids[i],
        )] is None
    &&& forall|i: int, j: int|
        0 <= i < j < ids.len() ==> res_number(#[trigger] ids[i]) != res_number(#[trigger] ids[j])
}

/// Whether resolving has given a meaning to some mentions and no other, and has said nothing but
/// warnings.
#[verifier::opaque]
pub open spec fn goes_well(st: NameSt, after: NameSt, ids: Seq<ResIdent>) -> bool {
    &&& after.infos == st.infos
    &&& after.ribs == st.ribs
    &&& after.map.len() == st.map.len()
    &&& forall|k: int|
        0 <= k < st.map.len() && (forall|i: int|
            0 <= i < ids.len() ==> res_number(#[trigger] ids[i]) != k) ==> (#[trigger] after.map[k])
            == st.map[k]
    &&& st.diags.len() <= after.diags.len()
    &&& forall|k: int| 0 <= k < st.diags.len() ==> #[trigger] after.diags[k] == st.diags[k]
    &&& forall|k: int|
        st.diags.len() <= k < after.diags.len() ==> (#[trigger] after.diags[k]) is SuspiciousEnumConst
}

proof fn lemma_well_nothing(st: NameSt)
    ensures
        goes_well(st, st, seq![]),
{
    reveal(goes_well);
}

proof fn lemma_well_both(a: NameSt, b: NameSt, c: NameSt, x: Seq<ResIdent>, y: Seq<ResIdent>)
    requires
        goes_well(a, b, x),
        goes_well(b, c, y),
    ensures
        goes_well(a, c, x + y),
{
    reveal(goes_well);
    let all = x + y;
    assert forall|k: int|
        0 <= k < a.map.len() && (forall|i: int|
            0 <= i < all.len() ==> res_number(#[trigger] all[i]) != k) implies (
    #[trigger] c.map[k]) == a.map[k] by {
        assert forall|i: int| 0 <= i < x.len() implies res_number(#[trigger] x[i]) != k by {
            assert(all[i] == x[i]);
        }
        assert forall|i: int| 0 <= i < y.len() implies res_number(#[trigger] y[i]) != k by {
            assert(all[x.len() + i] == y[i]);
        }
        assert(b.map[k] == a.map[k]);
    }
}

/// What is unresolved of two lists is so of the first, and of the second after the first.
proof fn lemma_unresolved(st: NameSt, mid: NameSt, x: Seq<ResIdent>, y: Seq<ResIdent>)
    requires
        unresolved(st.map, x + y),
    ensures
        unresolved(st.map, x),
        goes_well(st, mid, x) ==> unresolved(mid.map, y),
{
    reveal(goes_well);
    let all = x + y;
    assert forall|i: int| 0 <= i < x.len() implies 0 < res_number(#[trigger] x[i]) < st.map.len()
        && st.map[res_number(x[i])] is None by {
        assert(all[i] == x[i]);
    }
    assert forall|i: int, j: int| 0 <= i < j < x.len() implies res_number(#[trigger] x[i])
        != res_number(#[trigger] x[j]) by {
        assert(all[i] == x[i]);
        assert(all[j] == x[j]);
    }
    if goes_well(st, mid, x) {
        let n = x.len() as int;
        assert forall|i: int| 0 <= i < y.len() implies 0 < res_number(#[trigger] y[i])
            < mid.map.len() && mid.map[res_number(y[i])] is None by {
            assert(all[n + i] == y[i]);
            let k = res_number(y[i]);
            assert forall|j: int| 0 <= j < x.len() implies res_number(#[trigger] x[j]) != k by {
                assert(all[j] == x[j]);
            }
            assert(mid.map[k] == st.map[k]);
        }
        assert forall|i: int, j: int| 0 <= i < j < y.len() implies res_number(#[trigger] y[i])
            != res_number(#[trigger] y[j]) by {
            assert(all[n + i] == y[i]);
            assert(all[n + j] == y[j]);
        }
    }
}

/// Every mention may stand for what it does.
pub open spec fn anything() -> spec_fn(ResIdent, DefId) -> bool {
    |ident: ResIdent, def: DefId| true
}

proof fn lemma_record_well(st: NameSt, ident: ResIdent, def: DefId, span: Span)
    requires
        unresolved(st.map, seq![ident]),
    ensures
        goes_well(st, st.record(ident, def, span), seq![ident]),
{
    reveal(goes_well);
    let ids = seq![ident];
    assert(ids[0] == ident);
    assert(ident.res is Some);
}

proof fn lemma_var_well(cx: DefTables, st: NameSt, color: ColorV, var: Sp<Var>)
    requires
        unresolved(st.map, var_mentions(var)),
        var_ok(cx, st.ribs, anything(), color, var),
    ensures
        goes_well(st, res_var(cx, st, color, var), var_mentions(var)),
{
    match var.value.name {
        VarName::Reg { .. } => lemma_well_nothing(st),
        VarName::Normal { ident, language_if_reg } => {
            let def = var_means(cx, st.ribs, color, var, ident, language_if_reg)->0;
            lemma_record_well(st, ident, def, var.span);
            reveal(goes_well);
        },
    }
}

#[verifier::rlimit(40)]
proof fn lemma_expr_well(cx: DefTables, st: NameSt, color: ColorV, e: Sp<Expr>)
    requires
        unresolved(st.map, mentions(e)),
        expr_ok(cx, st.infos, st.ribs, anything(), color, e),
    ensures
        goes_well(st, res_expr(cx, st, color, e), mentions(e)),
    decreases e, 0nat,
{
    match e.value {
        Expr::Ternary { cond, left, right, .. } => {
            let (x, y, z) = (mentions(*cond), mentions(*left), mentions(*right));
            let st1 = res_expr(cx, st, color, *cond);
            let st2 = res_expr(cx, st1, color, *left);
            lemma_unresolved(st, st2, x + y, z);
            lemma_unresolved(st, st1, x, y);
            lemma_expr_well(cx, st, color, *cond);
            lemma_same_place(st, st1, x);
            lemma_expr_well(cx, st1, color, *left);
            lemma_well_both(st, st1, st2, x, y);
            lemma_same_place(st, st2, x + y);
            lemma_expr_well(cx, st2, color, *right);
            lemma_well_both(st, st2, res_expr(cx, st2, color, *right), x + y, z);
        },
        Expr::BinOp(a, _, b) => {
            let st1 = res_expr(cx, st, color, *a);
            lemma_unresolved(st, st1, mentions(*a), mentions(*b));
            lemma_expr_well(cx, st, color, *a);
            lemma_same_place(st, st1, mentions(*a));
            lemma_expr_well(cx, st1, color, *b);
            lemma_well_both(st, st1, res_expr(cx, st1, color, *b), mentions(*a), mentions(*b));
        },
        Expr::UnOp(_, x) => lemma_expr_well(cx, st, color, *x),
        Expr::XcrementOp { var, .. } => lemma_var_well(cx, st, color, var),
        Expr::Var(var) => lemma_var_well(cx, st, color, var),
        Expr::DiffSwitch(cases) => lemma_cases_well(cx, st, color, cases@, cases@.len()),
        Expr::Call(call) => {
            assert(mentions(e) == call_mentions(call));
            assert(expr_ok(cx, st.infos, st.ribs, anything(), color, e) == call_ok(
                cx,
                st.infos,
                st.ribs,
                anything(),
                color,
                call,
            ));
            lemma_call_well(cx, st, color, call);
            assert(res_expr(cx, st, color, e) == res_call(cx, st, color, call));
        },
        Expr::EnumConst { enum_name, ident } => {
            let def = cx.enum_const_def_spec(enum_name.value@, ident.value@)->0;
            lemma_record_well(st, ident.value, def, e.span);
        },
        _ => lemma_well_nothing(st),
    }
}

proof fn lemma_same_place(st: NameSt, after: NameSt, ids: Seq<ResIdent>)
    requires
        goes_well(st, after, ids),
    ensures
        after.infos == st.infos,
        after.ribs == st.ribs,
{
    reveal(goes_well);
}

proof fn lemma_cases_well(
    cx: DefTables,
    st: NameSt,
    color: ColorV,
    cases: Seq<Option<Sp<Expr>>>,
    n: nat,
)
    requires
        unresolved(st.map, case_mentions(cases, n)),
        cases_ok(cx, st.infos, st.ribs, anything(), color, cases, n),
    ensures
        goes_well(st, res_cases(cx, st, color, cases, n), case_mentions(cases, n)),
    decreases cases, n,
{
    if n > 0 && n <= cases.len() {
        let x = case_mentions(cases, (n - 1) as nat);
        let mid = res_cases(cx, st, color, cases, (n - 1) as nat);
        let y = match cases[n - 1] {
            Some(case) => mentions(case),
            None => seq![],
        };
        lemma_unresolved(st, mid, x, y);
        lemma_cases_well(cx, st, color, cases, (n - 1) as nat);
        lemma_same_place(st, mid, x);
        match cases[n - 1] {
            Some(case) => lemma_expr_well(cx, mid, color, case),
            None => lemma_well_nothing(mid),
        }
        lemma_well_both(st, mid, res_cases(cx, st, color, cases, n), x, y);
    } else {
        lemma_well_nothing(st);
    }
}

proof fn lemma_pseudos_well(
    cx: DefTables,
    st: NameSt,
    color: ColorV,
    pseudos: Seq<Sp<PseudoArg>>,
    n: nat,
)
    requires
        unresolved(st.map, pseudo_mentions(pseudos, n)),
        pseudos_ok(cx, st.infos, st.ribs, anything(), color, pseudos, n),
    ensures
        goes_well(st, res_pseudos(cx, st, color, pseudos, n), pseudo_mentions(pseudos, n)),
    decreases pseudos, n,
{
    if n > 0 && n <= pseudos.len() {
        let x = pseudo_mentions(pseudos, (n - 1) as nat);
        let mid = res_pseudos(cx, st, color, pseudos, (n - 1) as nat);
        let y = mentions(pseudos[n - 1].value.value);
        lemma_unresolved(st, mid, x, y);
        lemma_pseudos_well(cx, st, color, pseudos, (n - 1) as nat);
        lemma_same_place(st, mid, x);
        lemma_expr_well(cx, mid, color, pseudos[n - 1].value.value);
        lemma_well_both(st, mid, res_pseudos(cx, st, color, pseudos, n), x, y);
    } else {
        lemma_well_nothing(st);
    }
}

proof fn lemma_well_more(a: NameSt, b: NameSt, x: Seq<ResIdent>, y: Seq<ResIdent>)
    requires
        goes_well(a, b, x),
    ensures
        goes_well(a, b, x + y),
{
    reveal(goes_well);
    let all = x + y;
    assert forall|k: int|
        0 <= k < a.map.len() && (forall|i: int|
            0 <= i < all.len() ==> res_number(#[trigger] all[i]) != k) implies (
    #[trigger] b.map[k]) == a.map[k] by {
        assert forall|i: int| 0 <= i < x.len() implies res_number(#[trigger] x[i]) != k by {
            assert(all[i] == x[i]);
        }
    }
}

proof fn lemma_args_well(
    cx: DefTables,
    st: NameSt,
    color: ColorV,
    params: Option<Seq<ColorV>>,
    args: Seq<Sp<Expr>>,
    n: nat,
)
    requires
        unresolved(st.map, arg_mentions(args, n)),
        args_ok(cx, st.infos, st.ribs, anything(), color, params, args, n),
    ensures
        goes_well(st, res_args(cx, st, color, params, args, n), arg_mentions(args, n)),
    decreases args, n,
{
    if n > 0 && n <= args.len() {
        let x = arg_mentions(args, (n - 1) as nat);
        let mid = res_args(cx, st, color, params, args, (n - 1) as nat);
        let y = mentions(args[n - 1]);
        let after = res_args(cx, st, color, params, args, n);
        lemma_unresolved(st, mid, x, y);
        lemma_args_well(cx, st, color, params, args, (n - 1) as nat);
        lemma_same_place(st, mid, x);
        match params {
            None => {
                lemma_expr_well(cx, mid, color, args[n - 1]);
                lemma_well_both(st, mid, after, x, y);
            },
            Some(colors) => {
                if n <= colors.len() {
                    lemma_expr_well(cx, mid, colors[n - 1], args[n - 1]);
                    lemma_well_both(st, mid, after, x, y);
                } else {
                    lemma_well_more(st, mid, x, y);
                }
            },
        }
    } else {
        lemma_well_nothing(st);
    }
}

#[verifier::rlimit(40)]
proof fn lemma_call_well(cx: DefTables, st: NameSt, color: ColorV, call: ExprCall)
    requires
        unresolved(st.map, call_mentions(call)),
        call_ok(cx, st.infos, st.ribs, anything(), color, call),
    ensures
        goes_well(st, res_call(cx, st, color, call), call_mentions(call)),
    decreases call, 0nat,
{
    let x = pseudo_mentions(call.pseudos@, call.pseudos@.len());
    let y: Seq<ResIdent> = match call.name.value {
        CallableName::Ins { .. } => seq![],
        CallableName::Normal { ident, .. } => seq![ident],
    };
    let z = arg_mentions(call.args@, call.args@.len());
    assert(call_mentions(call) == x + y + z);
    let st1 = res_pseudos(cx, st, color, call.pseudos@, call.pseudos@.len());
    let (found, st2) = res_callable(st1, call.name);
    lemma_unresolved(st, st2, x + y, z);
    lemma_unresolved(st, st1, x, y);
    lemma_pseudos_well(cx, st, color, call.pseudos@, call.pseudos@.len());
    lemma_same_place(st, st1, x);
    match call.name.value {
        CallableName::Ins { .. } => {
            lemma_well_nothing(st1);
        },
        CallableName::Normal { ident, .. } => {
            let def = callee(st.ribs, call.name)->0;
            lemma_record_well(st1, ident, def, call.name.span);
            assert(y[0] == ident);
            assert(given(st2.map)(ident, def));
            assert(ident.res is Some);
        },
    }
    lemma_well_both(st, st1, st2, x, y);
    lemma_same_place(st, st2, x + y);
    let siggy = if found {
        st2.signature(cx, call.name.value)
    } else {
        None
    };
    let colors = colors_of(siggy);
    assert(colors == expected_colors(cx, st.infos, st.ribs, call.name));
    lemma_args_well(cx, st2, color, colors, call.args@, call.args@.len());
    lemma_well_both(st, st2, res_call(cx, st, color, call), x + y, z);
}

/// Where every name in an expression has a meaning, and its mentions are unresolved, nothing but
/// warnings is said about it, and no other mention is given a meaning.
pub proof fn law_good_expressions_are_accepted(
    cx: DefTables,
    st: NameSt,
    color: ColorV,
    e: Sp<Expr>,
)
    requires
        unresolved(st.map, mentions(e)),
        expr_ok(cx, st.infos, st.ribs, anything(), color, e),
    ensures
        goes_well(st, res_expr(cx, st, color, e), mentions(e)),
{
    lemma_expr_well(cx, st, color, e);
}

// =============================================================================
// Statements

/// The scopes with one more name in the top one of a namespace.
pub open spec fn added(ribs: StacksV, d: DefnV) -> StacksV {
    let top = ribs.of(d.ns).last();
    let entry = RibEntry { def_id: own_def(d.ident.value), def_ident_span: d.ident.span };
    ribs.with(
        d.ns,
        ribs.of(d.ns).drop_last().push(
            RibV { defs: top.defs.insert(d.ident.value@, entry), ..top },
        ),
    )
}

/// The scopes with more names in the top ones.
pub open spec fn added_all(ribs: StacksV, defs: Seq<DefnV>) -> StacksV
    decreases defs.len(),
{
    if defs.len() == 0 {
        ribs
    } else {
        added(added_all(ribs, defs.drop_last()), defs.last())
    }
}

/// The scopes inside a block: one of the items that are defined in it, and one for locals.
pub open spec fn block_scopes(ribs: StacksV, stmts: Seq<Sp<Stmt>>) -> StacksV {
    added_all(
        ribs.enter_new(Namespace::Funcs, RibKind::Items).enter_new(
            Namespace::Vars,
            RibKind::Items,
        ),
        stmts_defs(stmts, stmts.len()),
    ).enter_new(Namespace::Vars, RibKind::Locals)
}

/// The scopes inside a function: a barrier, and one of its parameters.
pub open spec fn func_scopes(ribs: StacksV, params: Seq<Sp<FuncParam>>) -> StacksV {
    added_all(
        ribs.enter_new(
            Namespace::Vars,
            RibKind::LocalBarrier { of_what: BarrierKind::Function },
        ).enter_new(Namespace::Vars, RibKind::Params),
        param_defs(params, params.len()),
    )
}

/// The scopes inside the values of constants: there is a barrier.
pub open spec fn const_scopes(ribs: StacksV) -> StacksV {
    ribs.enter_new(Namespace::Vars, RibKind::LocalBarrier { of_what: BarrierKind::Const })
}

/// What the first `n` variables of a declaration define.
pub open spec fn decl_defs(
    ty: VarType,
    vars: Seq<Sp<(Sp<Var>, Option<Sp<Expr>>)>>,
    n: nat,
) -> Seq<DefnV>
    decreases n,
{
    if n == 0 || n > vars.len() {
        seq![]
    } else {
        let before = decl_defs(ty, vars, (n - 1) as nat);
        let var = vars[n - 1].value.0;
        match var.value.name {
            VarName::Normal { ident, .. } => before.push(
                DefnV {
                    ns: Namespace::Vars,
                    ident: Spanned { span: var.span, value: ident },
                    info: InfoV::Var { ty },
                },
            ),
            VarName::Reg { .. } => before,
        }
    }
}

/// The scopes behind a statement: a declaration adds its variables.
pub open spec fn scopes_behind(ribs: StacksV, stmt: Sp<Stmt>) -> StacksV {
    match stmt.value.kind {
        StmtKind::Declaration { ty_keyword, vars } => added_all(
            ribs,
            decl_defs(ty_keyword.value.var_ty_spec(), vars@, vars@.len()),
        ),
        _ => ribs,
    }
}

/// The scopes behind the first `n` statements.
pub open spec fn scopes_behind_all(ribs: StacksV, stmts: Seq<Sp<Stmt>>, n: nat) -> StacksV
    decreases n,
{
    if n == 0 || n > stmts.len() {
        ribs
    } else {
        scopes_behind(scopes_behind_all(ribs, stmts, (n - 1) as nat), stmts[n - 1])
    }
}

/// Whether names that are defined stand for their own definitions.
pub open spec fn all_given(map: Seq<Option<DefId>>, defs: Seq<DefnV>) -> bool {
    forall|i: int|
        0 <= i < defs.len() ==> given(map)(
            (#[trigger] defs[i]).ident.value,
            own_def(defs[i].ident.value),
        )
}

/// Whether every name in an expression has the meaning that it has in some scopes.
pub open spec fn expr_in(
    cx: DefTables,
    map: Seq<Option<DefId>>,
    ribs: StacksV,
    e: Sp<Expr>,
) -> bool {
    exists|infos: Map<u32, InfoV>| #[trigger]
        expr_ok(cx, infos, ribs, given(map), None, e)
}

/// Whether the value of each of the first `n` variables of a declaration has the meaning that it
/// has behind the variables before it.
pub open spec fn decls_in(
    cx: DefTables,
    map: Seq<Option<DefId>>,
    ribs: StacksV,
    ty: VarType,
    vars: Seq<Sp<(Sp<Var>, Option<Sp<Expr>>)>>,
    n: nat,
) -> bool
    decreases n,
{
    if n == 0 || n > vars.len() {
        true
    } else {
        &&& decls_in(cx, map, ribs, ty, vars, (n - 1) as nat)
        &&& vars[n - 1].value.1 matches Some(e) ==> expr_in(
            cx,
            map,
            added_all(ribs, decl_defs(ty, vars, (n - 1) as nat)),
            e,
        )
    }
}

/// Whether every name in a statement has the meaning that it has where it stands.
pub open spec fn stmt_in(
    cx: DefTables,
    map: Seq<Option<DefId>>,
    ribs: StacksV,
    stmt: Sp<Stmt>,
) -> bool
    decreases stmt, 0nat,
{
    match stmt.value.kind {
        StmtKind::Declaration { ty_keyword, vars } => {
            let ty = ty_keyword.value.var_ty_spec();
            &&& decls_in(cx, map, ribs, ty, vars@, vars@.len())
            &&& all_given(map, decl_defs(ty, vars@, vars@.len()))
        },
        StmtKind::Item(item) => item_in(cx, map, ribs, *item),
        StmtKind::CondJump { cond, .. } => expr_in(cx, map, ribs, cond),
        StmtKind::Return { value, .. } => value matches Some(e) ==> expr_in(cx, map, ribs, e),
        StmtKind::CondChain(chain) => {
            &&& cond_blocks_in(cx, map, ribs, chain.cond_blocks@, chain.cond_blocks@.len())
            &&& chain.else_block matches Some(block) ==> block_in(cx, map, ribs, block)
        },
        StmtKind::Loop { block, .. } => block_in(cx, map, ribs, block),
        StmtKind::While { cond, block, .. } => {
            &&& expr_in(cx, map, ribs, cond)
            &&& block_in(cx, map, ribs, block)
        },
        StmtKind::Times { clobber, count, block, .. } => {
            &&& clobber matches Some(var) ==> var_ok(cx, ribs, given(map), None, var)
            &&& expr_in(cx, map, ribs, count)
            &&& block_in(cx, map, ribs, block)
        },
        StmtKind::Expr(e) => expr_in(cx, map, ribs, e),
        StmtKind::Block(block) => block_in(cx, map, ribs, block),
        StmtKind::Assignment { var, value, .. } => {
            &&& var_ok(cx, ribs, given(map), None, var)
            &&& expr_in(cx, map, ribs, value)
        },
        StmtKind::CallSub { args, .. } => forall|i: int|
            0 <= i < args@.len() ==> expr_in(cx, map, ribs, #[trigger] args@[i]),
        _ => true,
    }
}

/// Whether every name in the first `n` statements has the meaning that it has behind the
/// statements before it.
pub open spec fn stmts_in(
    cx: DefTables,
    map: Seq<Option<DefId>>,
    ribs: StacksV,
    stmts: Seq<Sp<Stmt>>,
    n: nat,
) -> bool
    decreases stmts, n,
{
    if n == 0 || n > stmts.len() {
        true
    } else {
        &&& stmts_in(cx, map, ribs, stmts, (n - 1) as nat)
        &&& stmt_in(cx, map, scopes_behind_all(ribs, stmts, (n - 1) as nat), stmts[n - 1])
    }
}

/// Whether every name in the first `n` conditional blocks has the meaning that it has there.
pub open spec fn cond_blocks_in(
    cx: DefTables,
    map: Seq<Option<DefId>>,
    ribs: StacksV,
    blocks: Seq<CondBlock>,
    n: nat,
) -> bool
    decreases blocks, n,
{
    if n == 0 || n > blocks.len() {
        true
    } else {
        &&& cond_blocks_in(cx, map, ribs, blocks, (n - 1) as nat)
        &&& expr_in(cx, map, ribs, blocks[n - 1].cond)
        &&& block_in(cx, map, ribs, blocks[n - 1].block)
    }
}

/// Whether every name in a block has the meaning that it has there.
pub open spec fn block_in(
    cx: DefTables,
    map: Seq<Option<DefId>>,
    ribs: StacksV,
    block: Block,
) -> bool
    decreases block, 0nat,
{
    &&& all_given(map, stmts_defs(block.0@, block.0@.len()))
    &&& stmts_in(cx, map, block_scopes(ribs, block.0@), block.0@, block.0@.len())
}

/// Whether every name in an item has the meaning that it has there.  The code of a function stands
/// inside the function, and the values of constants behind a barrier.
pub open spec fn item_in(
    cx: DefTables,
    map: Seq<Option<DefId>>,
    ribs: StacksV,
    item: Sp<Item>,
) -> bool
    decreases item, 0nat,
{
    match item.value {
        Item::Func(func) => match func.code {
            Some(code) => {
                &&& all_given(map, param_defs(func.params@, func.params@.len()))
                &&& block_in(cx, map, func_scopes(ribs, func.params@), code)
            },
            None => true,
        },
        Item::ConstVar { vars, .. } => forall|i: int|
            0 <= i < vars@.len() ==> expr_in(
                cx,
                map,
                const_scopes(ribs),
                (#[trigger] vars@[i]).value.1,
            ),
        Item::AnmScript { code, .. } => block_in(cx, map, ribs, code),
        Item::Timeline { code, .. } => block_in(cx, map, ribs, code),
        Item::Meta { .. } => true,
    }
}

// -----------------------------------------------------------------------------

proof fn lemma_keeps_on(a: NameSt, b: NameSt, c: NameSt)
    requires
        goes_on(a, b),
        goes_on(b, c),
    ensures
        goes_on(a, c),
{
    assert forall|k: int| 0 <= k < a.map.len() && (#[trigger] a.map[k]) is Some implies c.map[k]
        == a.map[k] by {
        assert(b.map[k] == a.map[k]);
    }
}

proof fn lemma_keeps_fin(a: Seq<Option<DefId>>, b: Seq<Option<DefId>>, fin: Seq<Option<DefId>>)
    requires
        keeps(a, b),
        keeps(b, fin),
    ensures
        keeps(a, fin),
{
    assert forall|k: int| 0 <= k < a.len() && (#[trigger] a[k]) is Some implies fin[k] == a[k] by {
        assert(b[k] == a[k]);
    }
}

proof fn lemma_define(st: NameSt, d: DefnV)
    requires
        rooted(st.ribs),
    ensures
        ({
            let after = st.define(d.ns, d.ident, d.info);
            &&& goes_on(st, after)
            &&& after.diags.len() == st.diags.len() ==> after.ribs == added(st.ribs, d) && given(
                after.map,
            )(d.ident.value, own_def(d.ident.value))
        }),
{
    let after = st.define(d.ns, d.ident, d.info);
    if st.can_define(d.ident.value) {
        let n = res_number(d.ident.value);
        assert forall|k: int|
            0 <= k < st.map.len() && (#[trigger] st.map[k]) is Some implies after.map[k]
            == st.map[k] by {
            if k == n {
                assert(st.map[k] == Some(own_def(d.ident.value)));
            }
        }
    }
}

proof fn lemma_given_all(a: Seq<Option<DefId>>, b: Seq<Option<DefId>>, defs: Seq<DefnV>)
    requires
        keeps(a, b),
        all_given(a, defs),
    ensures
        all_given(b, defs),
{
    assert forall|i: int| 0 <= i < defs.len() implies given(b)(
        (#[trigger] defs[i]).ident.value,
        own_def(defs[i].ident.value),
    ) by {
        lemma_given_later(a, b, defs[i].ident.value, own_def(defs[i].ident.value));
    }
}

proof fn lemma_defines(st: NameSt, defs: Seq<DefnV>)
    requires
        rooted(st.ribs),
    ensures
        ({
            let after = define_all(st, defs);
            &&& rooted(after.ribs)
            &&& goes_on(st, after)
            &&& after.diags.len() == st.diags.len() ==> after.ribs == added_all(st.ribs, defs)
                && all_given(after.map, defs)
        }),
    decreases defs.len(),
{
    if defs.len() > 0 {
        let less = defs.drop_last();
        let d = defs.last();
        lemma_defines(st, less);
        let mid = define_all(st, less);
        lemma_define(mid, d);
        let after = define_all(st, defs);
        lemma_keeps_on(st, mid, after);
        if after.diags.len() == st.diags.len() {
            lemma_given_all(mid.map, after.map, less);
            assert forall|i: int| 0 <= i < defs.len() implies given(after.map)(
                (#[trigger] defs[i]).ident.value,
                own_def(defs[i].ident.value),
            ) by {
                if i < defs.len() - 1 {
                    assert(defs[i] == less[i]);
                }
            }
        }
    }
}

/// A name that is a register cannot be defined.
proof fn lemma_scope_consts_any(
    st: NameSt,
    ty: VarType,
    vars: Seq<Sp<(Sp<Var>, Sp<Expr>)>>,
    n: nat,
)
    requires
        rooted(st.ribs),
        n <= vars.len(),
    ensures
        ({
            let after = scope_consts(st, ty, vars, n);
            &&& rooted(after.ribs)
            &&& goes_on(st, after)
            &&& after.diags.len() == st.diags.len() ==> after.ribs == added_all(
                st.ribs,
                const_defs(ty, vars, n),
            ) && all_given(after.map, const_defs(ty, vars, n))
        }),
    decreases n,
{
    if n > 0 {
        lemma_scope_consts_any(st, ty, vars, (n - 1) as nat);
        let mid = scope_consts(st, ty, vars, (n - 1) as nat);
        let after = scope_consts(st, ty, vars, n);
        let (var, _) = vars[n - 1].value;
        if let VarName::Normal { ident, .. } = var.value.name {
            let d = DefnV {
                ns: Namespace::Vars,
                ident: Spanned { span: var.span, value: ident },
                info: InfoV::Var { ty },
            };
            let defs = const_defs(ty, vars, n);
            let less = const_defs(ty, vars, (n - 1) as nat);
            lemma_define(mid, d);
            assert(defs.drop_last() =~= less);
            if after.diags.len() == st.diags.len() {
                lemma_given_all(mid.map, after.map, less);
                assert forall|i: int| 0 <= i < defs.len() implies given(after.map)(
                    (#[trigger] defs[i]).ident.value,
                    own_def(defs[i].ident.value),
                ) by {
                    if i < defs.len() - 1 {
                        assert(defs[i] == less[i]);
                    }
                }
            }
        }
        lemma_keeps_on(st, mid, after);
    }
}

proof fn lemma_added_both(ribs: StacksV, a: Seq<DefnV>, b: Seq<DefnV>)
    ensures
        added_all(ribs, a + b) == added_all(added_all(ribs, a), b),
    decreases b.len(),
{
    if b.len() == 0 {
        assert(a + b =~= a);
    } else {
        lemma_added_both(ribs, a, b.drop_last());
        assert((a + b).drop_last() =~= a + b.drop_last());
        assert((a + b).last() == b.last());
    }
}

proof fn lemma_scope_item_any(st: NameSt, item: Sp<Item>)
    requires
        rooted(st.ribs),
    ensures
        ({
            let after = scope_item(st, item);
            &&& rooted(after.ribs)
            &&& goes_on(st, after)
            &&& after.diags.len() == st.diags.len() ==> after.ribs == added_all(
                st.ribs,
                item_defs(item),
            ) && all_given(after.map, item_defs(item))
        }),
{
    match item.value {
        Item::Func(func) => {
            lemma_scope_item(st, item);
            lemma_defines(st, item_defs(item));
        },
        Item::ConstVar { ty_keyword, vars } => {
            lemma_scope_consts_any(st, ty_keyword.value.var_ty_spec(), vars@, vars@.len());
        },
        _ => {},
    }
}

proof fn lemma_given_both(map: Seq<Option<DefId>>, a: Seq<DefnV>, b: Seq<DefnV>)
    requires
        all_given(map, a),
        all_given(map, b),
    ensures
        all_given(map, a + b),
{
    let all = a + b;
    assert forall|i: int| 0 <= i < all.len() implies given(map)(
        (#[trigger] all[i]).ident.value,
        own_def(all[i].ident.value),
    ) by {
        if i < a.len() {
            assert(all[i] == a[i]);
        } else {
            assert(all[i] == b[i - a.len()]);
        }
    }
}

proof fn lemma_scope_stmts_any(st: NameSt, stmts: Seq<Sp<Stmt>>, n: nat)
    requires
        rooted(st.ribs),
        n <= stmts.len(),
    ensures
        ({
            let after = scope_stmts(st, stmts, n);
            &&& rooted(after.ribs)
            &&& goes_on(st, after)
            &&& after.diags.len() == st.diags.len() ==> after.ribs == added_all(
                st.ribs,
                stmts_defs(stmts, n),
            ) && all_given(after.map, stmts_defs(stmts, n))
        }),
    decreases n,
{
    if n > 0 {
        lemma_scope_stmts_any(st, stmts, (n - 1) as nat);
        let mid = scope_stmts(st, stmts, (n - 1) as nat);
        let after = scope_stmts(st, stmts, n);
        if let StmtKind::Item(item) = stmts[n - 1].value.kind {
            let less = stmts_defs(stmts, (n - 1) as nat);
            lemma_scope_item_any(mid, *item);
            lemma_keeps_on(st, mid, after);
            if after.diags.len() == st.diags.len() {
                lemma_added_both(st.ribs, less, item_defs(*item));
                lemma_given_all(mid.map, after.map, less);
                lemma_given_both(after.map, less, item_defs(*item));
            }
        }
    }
}

proof fn lemma_scope_items_any(st: NameSt, items: Seq<Sp<Item>>, n: nat)
    requires
        rooted(st.ribs),
        n <= items.len(),
    ensures
        ({
            let after = scope_items(st, items, n);
            &&& rooted(after.ribs)
            &&& goes_on(st, after)
            &&& after.diags.len() == st.diags.len() ==> after.ribs == added_all(
                st.ribs,
                items_defs(items, n),
            ) && all_given(after.map, items_defs(items, n))
        }),
    decreases n,
{
    if n > 0 {
        lemma_scope_items_any(st, items, (n - 1) as nat);
        let mid = scope_items(st, items, (n - 1) as nat);
        let after = scope_items(st, items, n);
        let less = items_defs(items, (n - 1) as nat);
        lemma_scope_item_any(mid, items[n - 1]);
        lemma_keeps_on(st, mid, after);
        if after.diags.len() == st.diags.len() {
            lemma_added_both(st.ribs, less, item_defs(items[n - 1]));
            lemma_given_all(mid.map, after.map, less);
            lemma_given_both(after.map, less, item_defs(items[n - 1]));
        }
    }
}

// -----------------------------------------------------------------------------

proof fn lemma_expr_in(cx: DefTables, st: NameSt, e: Sp<Expr>, fin: Seq<Option<DefId>>)
    ensures
        ({
            let after = res_expr(cx, st, None, e);
            &&& goes_on(st, after)
            &&& after.ribs == st.ribs
            &&& after.diags.len() == st.diags.len() && keeps(after.map, fin) ==> expr_in(
                cx,
                fin,
                st.ribs,
                e,
            )
        }),
{
    lemma_expr(cx, st, None, e, fin);
}

proof fn lemma_decls_in(
    cx: DefTables,
    st: NameSt,
    ty: VarType,
    vars: Seq<Sp<(Sp<Var>, Option<Sp<Expr>>)>>,
    n: nat,
    fin: Seq<Option<DefId>>,
)
    requires
        rooted(st.ribs),
        n <= vars.len(),
    ensures
        ({
            let after = res_decls(cx, st, ty, vars, n);
            &&& goes_on(st, after)
            &&& rooted(after.ribs)
            &&& after.diags.len() == st.diags.len() && keeps(after.map, fin) ==> {
                &&& after.ribs == added_all(st.ribs, decl_defs(ty, vars, n))
                &&& decls_in(cx, fin, st.ribs, ty, vars, n)
                &&& all_given(after.map, decl_defs(ty, vars, n))
            }
        }),
    decreases n,
{
    lemma_decls_ribs(cx, st, ty, vars, n);
    if n > 0 {
        lemma_decls_in(cx, st, ty, vars, (n - 1) as nat, fin);
        let mid = res_decls(cx, st, ty, vars, (n - 1) as nat);
        let after = res_decls(cx, st, ty, vars, n);
        let (var, value) = vars[n - 1].value;
        if let VarName::Normal { ident, .. } = var.value.name {
            let d = DefnV {
                ns: Namespace::Vars,
                ident: Spanned { span: var.span, value: ident },
                info: InfoV::Var { ty },
            };
            if let Some(e) = value {
                lemma_expr_in(cx, mid, e, fin);
            }
            let next = res_opt_expr(cx, mid, value);
            lemma_define(next, d);
            lemma_keeps_on(mid, next, after);
            lemma_keeps_on(st, mid, after);
            let defs = decl_defs(ty, vars, n);
            let less = decl_defs(ty, vars, (n - 1) as nat);
            assert(defs.drop_last() =~= less);
            if after.diags.len() == st.diags.len() && keeps(after.map, fin) {
                lemma_keeps_fin(next.map, after.map, fin);
                lemma_keeps_fin(mid.map, after.map, fin);
                lemma_given_all(mid.map, after.map, less);
                assert forall|i: int| 0 <= i < defs.len() implies given(after.map)(
                    (#[trigger] defs[i]).ident.value,
                    own_def(defs[i].ident.value),
                ) by {
                    if i < defs.len() - 1 {
                        assert(defs[i] == less[i]);
                    }
                }
            }
        }
    }
}

proof fn lemma_exprs_in(
    cx: DefTables,
    st: NameSt,
    es: Seq<Sp<Expr>>,
    n: nat,
    fin: Seq<Option<DefId>>,
)
    requires
        n <= es.len(),
    ensures
        ({
            let after = res_exprs(cx, st, es, n);
            &&& goes_on(st, after)
            &&& after.ribs == st.ribs
            &&& after.diags.len() == st.diags.len() && keeps(after.map, fin) ==> forall|i: int|
                0 <= i < n ==> expr_in(cx, fin, st.ribs, #[trigger] es[i])
        }),
    decreases n,
{
    if n > 0 {
        lemma_exprs_in(cx, st, es, (n - 1) as nat, fin);
        let mid = res_exprs(cx, st, es, (n - 1) as nat);
        let after = res_exprs(cx, st, es, n);
        lemma_expr_in(cx, mid, es[n - 1], fin);
        lemma_keeps_on(st, mid, after);
        if after.diags.len() == st.diags.len() && keeps(after.map, fin) {
            lemma_keeps_fin(mid.map, after.map, fin);
        }
    }
}

proof fn lemma_consts_in(
    cx: DefTables,
    st: NameSt,
    vars: Seq<Sp<(Sp<Var>, Sp<Expr>)>>,
    n: nat,
    fin: Seq<Option<DefId>>,
)
    requires
        n <= vars.len(),
    ensures
        ({
            let after = res_consts(cx, st, vars, n);
            &&& goes_on(st, after)
            &&& after.ribs == st.ribs
            &&& after.diags.len() == st.diags.len() && keeps(after.map, fin) ==> forall|i: int|
                0 <= i < n ==> expr_in(cx, fin, st.ribs, (#[trigger] vars[i]).value.1)
        }),
    decreases n,
{
    if n > 0 {
        lemma_consts_in(cx, st, vars, (n - 1) as nat, fin);
        let mid = res_consts(cx, st, vars, (n - 1) as nat);
        let after = res_consts(cx, st, vars, n);
        lemma_expr_in(cx, mid, vars[n - 1].value.1, fin);
        lemma_keeps_on(st, mid, after);
        if after.diags.len() == st.diags.len() && keeps(after.map, fin) {
            lemma_keeps_fin(mid.map, after.map, fin);
        }
    }
}

#[verifier::rlimit(60)]
proof fn lemma_stmt_in(cx: DefTables, st: NameSt, stmt: Sp<Stmt>, fin: Seq<Option<DefId>>)
    requires
        rooted(st.ribs),
    ensures
        ({
            let after = res_stmt(cx, st, stmt);
            &&& goes_on(st, after)
            &&& rooted(after.ribs)
            &&& after.diags.len() == st.diags.len() && keeps(after.map, fin) ==> {
                &&& after.ribs == scopes_behind(st.ribs, stmt)
                &&& stmt_in(cx, fin, st.ribs, stmt)
            }
        }),
    decreases stmt, 0nat,
{
    lemma_stmt_ribs(cx, st, stmt);
    let after = res_stmt(cx, st, stmt);
    match stmt.value.kind {
        StmtKind::Declaration { ty_keyword, vars } => {
            let ty = ty_keyword.value.var_ty_spec();
            lemma_decls_in(cx, st, ty, vars@, vars@.len(), fin);
            if after.diags.len() == st.diags.len() && keeps(after.map, fin) {
                lemma_given_all(after.map, fin, decl_defs(ty, vars@, vars@.len()));
            }
        },
        StmtKind::Item(item) => lemma_item_in(cx, st, *item, fin),
        StmtKind::CondJump { cond, .. } => lemma_expr_in(cx, st, cond, fin),
        StmtKind::Return { value, .. } => {
            if let Some(e) = value {
                lemma_expr_in(cx, st, e, fin);
            }
        },
        StmtKind::CondChain(chain) => {
            let blocks = chain.cond_blocks@;
            lemma_cond_blocks_in(cx, st, blocks, blocks.len(), fin);
            let mid = res_cond_blocks(cx, st, blocks, blocks.len());
            if let Some(block) = chain.else_block {
                lemma_block_in(cx, mid, block, fin);
                lemma_keeps_on(st, mid, after);
                if keeps(after.map, fin) {
                    lemma_keeps_fin(mid.map, after.map, fin);
                }
            }
        },
        StmtKind::Loop { block, .. } => lemma_block_in(cx, st, block, fin),
        StmtKind::While { do_keyword, cond, block, .. } => {
            if do_keyword is Some {
                lemma_expr_in(cx, st, cond, fin);
                let mid = res_expr(cx, st, None, cond);
                lemma_block_in(cx, mid, block, fin);
                lemma_keeps_on(st, mid, after);
                if keeps(after.map, fin) {
                    lemma_keeps_fin(mid.map, after.map, fin);
                }
            } else {
                lemma_block_in(cx, st, block, fin);
                let mid = res_block(cx, st, block);
                lemma_expr_in(cx, mid, cond, fin);
                lemma_keeps_on(st, mid, after);
                if keeps(after.map, fin) {
                    lemma_keeps_fin(mid.map, after.map, fin);
                }
            }
        },
        StmtKind::Times { clobber, count, block, .. } => {
            let first = match clobber {
                Some(var) => res_var(cx, st, None, var),
                None => st,
            };
            if let Some(var) = clobber {
                lemma_var(cx, st, None, var, fin);
            }
            lemma_expr_in(cx, first, count, fin);
            let mid = res_expr(cx, first, None, count);
            lemma_block_in(cx, mid, block, fin);
            lemma_keeps_on(first, mid, after);
            lemma_keeps_on(st, first, after);
            if keeps(after.map, fin) {
                lemma_keeps_fin(mid.map, after.map, fin);
                lemma_keeps_fin(first.map, after.map, fin);
            }
        },
        StmtKind::Expr(e) => lemma_expr_in(cx, st, e, fin),
        StmtKind::Block(block) => lemma_block_in(cx, st, block, fin),
        StmtKind::Assignment { var, value, .. } => {
            lemma_var(cx, st, None, var, fin);
            let mid = res_var(cx, st, None, var);
            lemma_expr_in(cx, mid, value, fin);
            lemma_keeps_on(st, mid, after);
            if keeps(after.map, fin) {
                lemma_keeps_fin(mid.map, after.map, fin);
            }
        },
        StmtKind::CallSub { args, .. } => lemma_exprs_in(cx, st, args@, args@.len(), fin),
        _ => {},
    }
}

proof fn lemma_stmts_in(
    cx: DefTables,
    st: NameSt,
    stmts: Seq<Sp<Stmt>>,
    n: nat,
    fin: Seq<Option<DefId>>,
)
    requires
        rooted(st.ribs),
        n <= stmts.len(),
    ensures
        ({
            let after = res_stmts(cx, st, stmts, n);
            &&& goes_on(st, after)
            &&& rooted(after.ribs)
            &&& after.diags.len() == st.diags.len() && keeps(after.map, fin) ==> {
                &&& after.ribs == scopes_behind_all(st.ribs, stmts, n)
                &&& stmts_in(cx, fin, st.ribs, stmts, n)
            }
        }),
    decreases stmts, n,
{
    if n > 0 {
        lemma_stmts_in(cx, st, stmts, (n - 1) as nat, fin);
        let mid = res_stmts(cx, st, stmts, (n - 1) as nat);
        let after = res_stmts(cx, st, stmts, n);
        lemma_stmt_in(cx, mid, stmts[n - 1], fin);
        lemma_keeps_on(st, mid, after);
        if after.diags.len() == st.diags.len() && keeps(after.map, fin) {
            lemma_keeps_fin(mid.map, after.map, fin);
        }
    }
}

proof fn lemma_cond_blocks_in(
    cx: DefTables,
    st: NameSt,
    blocks: Seq<CondBlock>,
    n: nat,
    fin: Seq<Option<DefId>>,
)
    requires
        rooted(st.ribs),
        n <= blocks.len(),
    ensures
        res_cond_blocks(cx, st, blocks, n).ribs == st.ribs,
        ({
            let after = res_cond_blocks(cx, st, blocks, n);
            &&& goes_on(st, after)
            &&& rooted(after.ribs)
            &&& after.diags.len() == st.diags.len() && keeps(after.map, fin) ==> {
                cond_blocks_in(cx, fin, st.ribs, blocks, n)
            }
        }),
    decreases blocks, n,
{
    lemma_blocks_ribs(cx, st, blocks, n);
    if n > 0 {
        lemma_cond_blocks_in(cx, st, blocks, (n - 1) as nat, fin);
        let mid = res_cond_blocks(cx, st, blocks, (n - 1) as nat);
        let after = res_cond_blocks(cx, st, blocks, n);
        lemma_expr_in(cx, mid, blocks[n - 1].cond, fin);
        let next = res_expr(cx, mid, None, blocks[n - 1].cond);
        lemma_block_in(cx, next, blocks[n - 1].block, fin);
        lemma_keeps_on(mid, next, after);
        lemma_keeps_on(st, mid, after);
        if after.diags.len() == st.diags.len() && keeps(after.map, fin) {
            lemma_keeps_fin(next.map, after.map, fin);
            lemma_keeps_fin(mid.map, after.map, fin);
        }
    }
}

proof fn lemma_block_in(cx: DefTables, st: NameSt, block: Block, fin: Seq<Option<DefId>>)
    requires
        rooted(st.ribs),
    ensures
        res_block(cx, st, block).ribs == st.ribs,
        ({
            let after = res_block(cx, st, block);
            &&& goes_on(st, after)
            &&& rooted(after.ribs)
            &&& after.diags.len() == st.diags.len() && keeps(after.map, fin) ==> {
                block_in(cx, fin, st.ribs, block)
            }
        }),
    decreases block, 0nat,
{
    law_block_keeps_scope(cx, st, block);
    let stmts = block.0@;
    let start = st.enter(Namespace::Funcs, RibKind::Items).enter(Namespace::Vars, RibKind::Items);
    lemma_scope_stmts_any(start, stmts, stmts.len());
    let scoped = scope_stmts(start, stmts, stmts.len());
    let inside = enter_block(st, stmts);
    lemma_stmts_in(cx, inside, stmts, stmts.len(), fin);
    let done = res_stmts(cx, inside, stmts, stmts.len());
    let after = res_block(cx, st, block);
    lemma_keeps_on(start, inside, done);
    if after.diags.len() == st.diags.len() && keeps(after.map, fin) {
        lemma_keeps_fin(inside.map, done.map, fin);
        lemma_given_all(inside.map, fin, stmts_defs(stmts, stmts.len()));
    }
}

proof fn lemma_item_in(cx: DefTables, st: NameSt, item: Sp<Item>, fin: Seq<Option<DefId>>)
    requires
        rooted(st.ribs),
    ensures
        res_item(cx, st, item).ribs == st.ribs,
        ({
            let after = res_item(cx, st, item);
            &&& goes_on(st, after)
            &&& rooted(after.ribs)
            &&& after.diags.len() == st.diags.len() && keeps(after.map, fin) ==> {
                item_in(cx, fin, st.ribs, item)
            }
        }),
    decreases item, 0nat,
{
    law_item_keeps_scope(cx, st, item);
    let after = res_item(cx, st, item);
    match item.value {
        Item::Func(func) => {
            if let Some(code) = func.code {
                let params = func.params@;
                let start = st.enter(
                    Namespace::Vars,
                    RibKind::LocalBarrier { of_what: BarrierKind::Function },
                ).enter(Namespace::Vars, RibKind::Params);
                lemma_scope_params(start, params, params.len());
                lemma_defines(start, param_defs(params, params.len()));
                let inside = enter_func(st, params);
                lemma_block_in(cx, inside, code, fin);
                let done = res_block(cx, inside, code);
                lemma_keeps_on(start, inside, done);
                if after.diags.len() == st.diags.len() && keeps(after.map, fin) {
                    lemma_keeps_fin(inside.map, done.map, fin);
                    lemma_given_all(inside.map, fin, param_defs(params, params.len()));
                }
            }
        },
        Item::ConstVar { vars, .. } => {
            let inside = st.enter(
                Namespace::Vars,
                RibKind::LocalBarrier { of_what: BarrierKind::Const },
            );
            lemma_consts_in(cx, inside, vars@, vars@.len(), fin);
        },
        Item::AnmScript { code, .. } => lemma_block_in(cx, st, code, fin),
        Item::Timeline { code, .. } => lemma_block_in(cx, st, code, fin),
        Item::Meta { fields, .. } => {
            lemma_fields_go_on(cx, st, fields.value.0@, fields.value.0@.len());
        },
    }
}

proof fn lemma_meta_goes_on(cx: DefTables, st: NameSt, meta: Sp<Meta>)
    ensures
        goes_on(st, res_meta(cx, st, meta)),
    decreases meta, 0nat,
{
    match meta.value {
        Meta::Scalar(e) => lemma_expr(cx, st, None, e, st.map),
        Meta::Array(items) => lemma_metas_go_on(cx, st, items@, items@.len()),
        Meta::Object(fields) => lemma_fields_go_on(
            cx,
            st,
            fields.value.0@,
            fields.value.0@.len(),
        ),
        Meta::Variant { fields, .. } => lemma_fields_go_on(
            cx,
            st,
            fields.value.0@,
            fields.value.0@.len(),
        ),
    }
}

proof fn lemma_metas_go_on(cx: DefTables, st: NameSt, items: Seq<Sp<Meta>>, n: nat)
    ensures
        goes_on(st, res_metas(cx, st, items, n)),
    decreases items, n,
{
    if n > 0 && n <= items.len() {
        lemma_metas_go_on(cx, st, items, (n - 1) as nat);
        let mid = res_metas(cx, st, items, (n - 1) as nat);
        lemma_meta_goes_on(cx, mid, items[n - 1]);
        lemma_keeps_on(st, mid, res_metas(cx, st, items, n));
    }
}

proof fn lemma_fields_go_on(cx: DefTables, st: NameSt, fields: Seq<(Sp<Ident>, Sp<Meta>)>, n: nat)
    ensures
        goes_on(st, res_fields(cx, st, fields, n)),
    decreases fields, n,
{
    if n > 0 && n <= fields.len() {
        lemma_fields_go_on(cx, st, fields, (n - 1) as nat);
        let mid = res_fields(cx, st, fields, (n - 1) as nat);
        lemma_meta_goes_on(cx, mid, fields[n - 1].1);
        lemma_keeps_on(st, mid, res_fields(cx, st, fields, n));
    }
}

proof fn lemma_items_in(
    cx: DefTables,
    st: NameSt,
    items: Seq<Sp<Item>>,
    n: nat,
    fin: Seq<Option<DefId>>,
)
    requires
        rooted(st.ribs),
        n <= items.len(),
    ensures
        res_items(cx, st, items, n).ribs == st.ribs,
        ({
            let after = res_items(cx, st, items, n);
            &&& goes_on(st, after)
            &&& rooted(after.ribs)
            &&& after.diags.len() == st.diags.len() && keeps(after.map, fin) ==> {
                forall|i: int| 0 <= i < n ==> item_in(cx, fin, st.ribs, #[trigger] items[i])
            }
        }),
    decreases n,
{
    if n > 0 {
        lemma_items_in(cx, st, items, (n - 1) as nat, fin);
        let mid = res_items(cx, st, items, (n - 1) as nat);
        let after = res_items(cx, st, items, n);
        lemma_item_in(cx, mid, items[n - 1], fin);
        lemma_keeps_on(st, mid, after);
        if after.diags.len() == st.diags.len() && keeps(after.map, fin) {
            lemma_keeps_fin(mid.map, after.map, fin);
        }
    }
}

/// The scopes inside a file: one of the items that it defines.
pub open spec fn file_scopes(ribs: StacksV, items: Seq<Sp<Item>>) -> StacksV {
    added_all(
        ribs.enter_new(Namespace::Vars, RibKind::Items).enter_new(
            Namespace::Funcs,
            RibKind::Items,
        ),
        items_defs(items, items.len()),
    )
}

/// Where nothing is said about a file, every name in its code has been given the meaning that it
/// has where it stands, and every name that is defined stands for its own definition.
pub proof fn law_names_in_files_are_resolved(cx: DefTables, st: NameSt, items: Seq<Sp<Item>>)
    requires
        rooted(st.ribs),
    ensures
        ({
            let after = res_file(cx, st, items);
            after.diags.len() == st.diags.len() ==> {
                &&& all_given(after.map, items_defs(items, items.len()))
                &&& forall|i: int|
                    0 <= i < items.len() ==> item_in(
                        cx,
                        after.map,
                        file_scopes(st.ribs, items),
                        #[trigger] items[i],
                    )
            }
        }),
{
    let start = st.enter(Namespace::Vars, RibKind::Items).enter(Namespace::Funcs, RibKind::Items);
    let n = items.len();
    lemma_scope_items_any(start, items, n);
    let inside = scope_items(start, items, n);
    let after = res_file(cx, st, items);
    lemma_items_in(cx, inside, items, n, after.map);
    if after.diags.len() == st.diags.len() {
        lemma_given_all(inside.map, after.map, items_defs(items, n));
    }
}

} // verus!
