//! Which variable a name means where it stands.

use crate::passes::resolve_vars::{
    initial_state, initial_vars, res_block, res_body, res_cond, res_decl, res_decls, res_expr,
    res_exprs, res_stmts, res_var,
    ResSt,
};
use crate::pos::Sp;
use crate::scope::{
    law_declaration_keeps_other_names, law_declared_name_resolves, lemma_resolve_monotone,
    resolve_spec, ScopeId, VarId, VarInfoV,
};
use crate::script::{BodyV, CondV, ExprV, StmtV, VarDeclKeyword, VarV};
use crate::type_system::{RegsAndInstrs, ScalarType};
use vstd::prelude::*;

verus! {

/// The names that can be seen from a place, the latest last, with the variables that there are.
#[verifier::ext_equal]
pub ghost struct Sight {
    /// Each name with the number of its variable.
    pub seen: Seq<(Seq<char>, nat)>,
    /// The name and the type of each variable.
    pub vars: Seq<(Seq<char>, Option<ScalarType>)>,
}

impl Sight {
    /// A new variable that can be seen from now on.
    pub open spec fn declare(self, name: Seq<char>, ty: Option<ScalarType>) -> Sight {
        Sight {
            seen: self.seen.push((name, self.vars.len())),
            vars: self.vars.push((name, ty)),
        }
    }
}

/// The variable that a name means: the latest one of the name that can be seen.
pub open spec fn meaning(seen: Seq<(Seq<char>, nat)>, name: Seq<char>) -> Option<VarId>
    decreases seen.len(),
{
    if seen.len() == 0 {
        None
    } else if seen.last().0 == name {
        Some(VarId(seen.last().1 as usize))
    } else {
        meaning(seen.drop_last(), name)
    }
}

/// Whether a name was replaced by the variable that it means, and anything else was left.
pub open spec fn var_means(seen: Seq<(Seq<char>, nat)>, var: Sp<VarV>, out: Sp<VarV>) -> bool {
    &&& out.span == var.span
    &&& match var.value {
        VarV::Named { ty_sigil, ident } => meaning(seen, ident) matches Some(var_id) && out.value
            == (VarV::Local { ty_sigil, var_id }),
        _ => out == var,
    }
}

/// Whether every name in an expression was replaced by the variable that it means.
pub open spec fn expr_means(seen: Seq<(Seq<char>, nat)>, e: Sp<ExprV>, out: Sp<ExprV>) -> bool
    decreases e, 0nat,
{
    &&& out.span == e.span
    &&& match (e.value, out.value) {
        (
            ExprV::Ternary { cond, left, right },
            ExprV::Ternary { cond: c, left: l, right: r },
        ) => expr_means(seen, *cond, *c) && expr_means(seen, *left, *l) && expr_means(
            seen,
            *right,
            *r,
        ),
        (ExprV::Binop(a, op, b), ExprV::Binop(x, o, y)) => o == op && expr_means(seen, *a, *x)
            && expr_means(seen, *b, *y),
        (ExprV::Call { func, args }, ExprV::Call { func: f, args: xs }) => f == func && exprs_mean(
            seen,
            args,
            xs,
            args.len(),
        ),
        (ExprV::Unop(op, b), ExprV::Unop(o, y)) => o == op && expr_means(seen, *b, *y),
        (ExprV::Var(var), ExprV::Var(v)) => var_means(seen, var, v),
        (ExprV::LitInt { .. }, _) => out == e,
        (ExprV::LitFloat { .. }, _) => out == e,
        (ExprV::LitString { .. }, _) => out == e,
        _ => false,
    }
}

/// Whether that holds of the first `n` expressions of a list.
pub open spec fn exprs_mean(
    seen: Seq<(Seq<char>, nat)>,
    es: Seq<Sp<ExprV>>,
    out: Seq<Sp<ExprV>>,
    n: nat,
) -> bool
    decreases es, n,
{
    if n == 0 || n > es.len() {
        out.len() == 0
    } else {
        &&& out.len() == n
        &&& exprs_mean(seen, es, out.drop_last(), (n - 1) as nat)
        &&& expr_means(seen, es[n - 1], out.last())
    }
}

pub open spec fn cond_means(seen: Seq<(Seq<char>, nat)>, c: Sp<CondV>, out: Sp<CondV>) -> bool {
    &&& out.span == c.span
    &&& match (c.value, out.value) {
        (CondV::Decrement(v), CondV::Decrement(x)) => var_means(seen, v, x),
        (CondV::Expr(e), CondV::Expr(x)) => expr_means(seen, e, x),
        _ => false,
    }
}

/// The type that a keyword gives to a variable.
pub open spec fn type_of(keyword: VarDeclKeyword) -> Option<ScalarType> {
    match keyword {
        VarDeclKeyword::Int => Some(ScalarType::Int),
        VarDeclKeyword::Float => Some(ScalarType::Float),
        VarDeclKeyword::Var => None,
    }
}

/// What can be seen behind the first `n` variables of a declaration.
pub open spec fn after_decls(
    s: Sight,
    ty: Option<ScalarType>,
    vars: Seq<(Sp<VarV>, Option<Sp<ExprV>>)>,
    n: nat,
) -> Sight
    decreases n,
{
    if n == 0 {
        s
    } else {
        let s = after_decls(s, ty, vars, (n - 1) as nat);
        match vars[n - 1].0.value {
            VarV::Named { ident, .. } => s.declare(ident, ty),
            _ => s,
        }
    }
}

/// Whether one variable was declared: it is a new one, and its own name is not seen from its value.
pub open spec fn decl_means(
    s: Sight,
    decl: (Sp<VarV>, Option<Sp<ExprV>>),
    out: (Sp<VarV>, Option<Sp<ExprV>>),
) -> bool {
    match decl.0.value {
        VarV::Named { .. } => {
            &&& out.0.span == decl.0.span
            &&& out.0.value == (VarV::Local {
                ty_sigil: None,
                var_id: VarId(s.vars.len() as usize),
            })
            &&& match (decl.1, out.1) {
                (Some(e), Some(x)) => expr_means(s.seen, e, x),
                (None, None) => true,
                _ => false,
            }
        },
        _ => out == decl,
    }
}

/// Whether the first `n` variables of a declaration were declared, each seen from the next ones.
pub open spec fn decls_mean(
    s: Sight,
    ty: Option<ScalarType>,
    vars: Seq<(Sp<VarV>, Option<Sp<ExprV>>)>,
    out: Seq<(Sp<VarV>, Option<Sp<ExprV>>)>,
    n: nat,
) -> bool
    decreases n,
{
    if n == 0 {
        out.len() == 0
    } else {
        &&& out.len() == n
        &&& decls_mean(s, ty, vars, out.drop_last(), (n - 1) as nat)
        &&& decl_means(after_decls(s, ty, vars, (n - 1) as nat), vars[n - 1], out.last())
    }
}

/// What can be seen behind a statement.  What is declared in a block is not seen behind it.
pub open spec fn after_body(s: Sight, body: Sp<BodyV>) -> Sight
    decreases body, 0nat,
{
    match body.value {
        BodyV::Declaration { keyword, vars } => after_decls(s, type_of(keyword), vars, vars.len()),
        BodyV::Loop { block } => Sight {
            seen: s.seen,
            vars: after_block(s, block, block.len()).vars,
        },
        BodyV::While { block, .. } => Sight {
            seen: s.seen,
            vars: after_block(s, block, block.len()).vars,
        },
        _ => s,
    }
}

/// What can be seen behind the first `n` statements of a block.
pub open spec fn after_block(s: Sight, block: Seq<Sp<StmtV>>, n: nat) -> Sight
    decreases block, n,
{
    if n == 0 || n > block.len() {
        s
    } else {
        after_body(after_block(s, block, (n - 1) as nat), block[n - 1].value.body)
    }
}

/// Whether every name in a statement was replaced by the variable that it means.
pub open spec fn body_means(s: Sight, body: Sp<BodyV>, out: Sp<BodyV>) -> bool
    decreases body, 0nat,
{
    &&& out.span == body.span
    &&& match (body.value, out.value) {
        (
            BodyV::CondJump { keyword, cond, jump },
            BodyV::CondJump { keyword: k, cond: c, jump: j },
        ) => k == keyword && j == jump && cond_means(s.seen, cond, c),
        (BodyV::Loop { block }, BodyV::Loop { block: b }) => block_means(
            s,
            block,
            b,
            block.len(),
        ),
        (
            BodyV::While { is_do_while, cond, block },
            BodyV::While { is_do_while: d, cond: c, block: b },
        ) => d == is_do_while && cond_means(s.seen, cond, c) && block_means(
            s,
            block,
            b,
            block.len(),
        ),
        (BodyV::Expr(e), BodyV::Expr(x)) => expr_means(s.seen, e, x),
        (
            BodyV::Assignment { var, op, value },
            BodyV::Assignment { var: v, op: o, value: x },
        ) => o == op && var_means(s.seen, var, v) && expr_means(s.seen, value, x),
        (
            BodyV::Declaration { keyword, vars },
            BodyV::Declaration { keyword: k, vars: v },
        ) => k == keyword && decls_mean(s, type_of(keyword), vars, v, vars.len()),
        (BodyV::Jump(_), _) => out == body,
        (BodyV::InterruptLabel(_), _) => out == body,
        (BodyV::Label(_), _) => out == body,
        (BodyV::NoInstruction, _) => out == body,
        _ => false,
    }
}

/// Whether every name in the first `n` statements was replaced by the variable that it means.
pub open spec fn block_means(
    s: Sight,
    block: Seq<Sp<StmtV>>,
    out: Seq<Sp<StmtV>>,
    n: nat,
) -> bool
    decreases block, n,
{
    if n == 0 || n > block.len() {
        out.len() == 0
    } else {
        let (stmt, x) = (block[n - 1], out.last());
        &&& out.len() == n
        &&& block_means(s, block, out.drop_last(), (n - 1) as nat)
        &&& x.span == stmt.span
        &&& x.value.time == stmt.value.time
        &&& x.value.labels == stmt.value.labels
        &&& body_means(
            after_block(s, block, (n - 1) as nat),
            stmt.value.body,
            x.value.body,
        )
    }
}

// =============================================================================

/// Whether a state of the resolution is what can be seen.
pub open spec fn ties(st: ResSt, s: Sight) -> bool {
    &&& st.wf()
    &&& st.vars.len() == s.vars.len()
    &&& forall|i: int|
        0 <= i < s.vars.len() ==> (#[trigger] st.vars[i]).name == Some(s.vars[i].0)
            && st.vars[i].ty == s.vars[i].1
    &&& forall|name: Seq<char>| #[trigger]
        resolve_spec(st.vars, st.scope, name) == meaning(s.seen, name)
}

/// Whether variables were only added, and the errors are more just if something went wrong.
spec fn steps(st: ResSt, end: ResSt, ok: bool) -> bool {
    &&& st.vars.len() <= end.vars.len()
    &&& forall|i: int| 0 <= i < st.vars.len() ==> #[trigger] end.vars[i] == st.vars[i]
    &&& st.errors.len() <= end.errors.len()
    &&& ok <==> st.errors.len() == end.errors.len()
}

proof fn lemma_var(st: ResSt, s: Sight, var: Sp<VarV>)
    requires
        ties(st, s),
    ensures
        steps(st, res_var(st, var).1, var_means(s.seen, var, res_var(st, var).0)),
        ties(res_var(st, var).1, s),
{
    if let VarV::Named { ident, .. } = var.value {
        assert(resolve_spec(st.vars, st.scope, ident) == meaning(s.seen, ident));
    }
}

proof fn lemma_expr(st: ResSt, s: Sight, e: Sp<ExprV>)
    requires
        ties(st, s),
    ensures
        steps(st, res_expr(st, e).1, expr_means(s.seen, e, res_expr(st, e).0)),
        ties(res_expr(st, e).1, s),
    decreases e, 0nat,
{
    match e.value {
        ExprV::Ternary { cond, left, right } => {
            lemma_expr(st, s, *cond);
            let s1 = res_expr(st, *cond).1;
            lemma_expr(s1, s, *left);
            let s2 = res_expr(s1, *left).1;
            lemma_expr(s2, s, *right);
        },
        ExprV::Binop(a, _, b) => {
            lemma_expr(st, s, *a);
            lemma_expr(res_expr(st, *a).1, s, *b);
        },
        ExprV::Call { args, .. } => lemma_exprs(st, s, args, args.len()),
        ExprV::Unop(_, b) => lemma_expr(st, s, *b),
        ExprV::Var(var) => lemma_var(st, s, var),
        _ => {},
    }
}

proof fn lemma_exprs(st: ResSt, s: Sight, es: Seq<Sp<ExprV>>, n: nat)
    requires
        ties(st, s),
        n <= es.len(),
    ensures
        steps(st, res_exprs(st, es, n).1, exprs_mean(s.seen, es, res_exprs(st, es, n).0, n)),
        ties(res_exprs(st, es, n).1, s),
        res_exprs(st, es, n).0.len() == n,
    decreases es, n,
{
    if n > 0 {
        let m = (n - 1) as nat;
        lemma_exprs(st, s, es, m);
        let (before, s1) = res_exprs(st, es, m);
        lemma_expr(s1, s, es[n - 1]);
        assert(res_exprs(st, es, n).0.drop_last() =~= before);
    }
}

proof fn lemma_cond(st: ResSt, s: Sight, c: Sp<CondV>)
    requires
        ties(st, s),
    ensures
        steps(st, res_cond(st, c).1, cond_means(s.seen, c, res_cond(st, c).0)),
        ties(res_cond(st, c).1, s),
{
    match c.value {
        CondV::Decrement(var) => lemma_var(st, s, var),
        CondV::Expr(e) => lemma_expr(st, s, e),
    }
}

proof fn lemma_declared(st: ResSt, s: Sight, name: Seq<char>, ty: Option<ScalarType>)
    requires
        ties(st, s),
        st.vars.len() < usize::MAX,
    ensures
        ties(
            (ResSt {
                scope: ScopeId((st.vars.len() + 1) as usize),
                vars: st.vars.push(VarInfoV { name: Some(name), ty, parent: st.scope }),
                ..st
            }),
            s.declare(name, ty),
        ),
{
    let vars = st.vars.push(VarInfoV { name: Some(name), ty, parent: st.scope });
    let scope = ScopeId((st.vars.len() + 1) as usize);
    let seen = s.declare(name, ty).seen;
    assert(seen.drop_last() =~= s.seen);
    law_declared_name_resolves(st.vars, st.scope, name, ty);
    assert forall|other: Seq<char>| #[trigger] resolve_spec(vars, scope, other) == meaning(
        seen,
        other,
    ) by {
        if other != name {
            law_declaration_keeps_other_names(st.vars, st.scope, name, ty, other);
            assert(resolve_spec(st.vars, st.scope, other) == meaning(s.seen, other));
        }
    }
}

proof fn lemma_decls_count(
    s: Sight,
    ty: Option<ScalarType>,
    vars: Seq<(Sp<VarV>, Option<Sp<ExprV>>)>,
    n: nat,
)
    ensures
        s.vars.len() <= after_decls(s, ty, vars, n).vars.len(),
    decreases n,
{
    if n > 0 {
        lemma_decls_count(s, ty, vars, (n - 1) as nat);
    }
}

proof fn lemma_decls(
    st: ResSt,
    s: Sight,
    ty: Option<ScalarType>,
    vars: Seq<(Sp<VarV>, Option<Sp<ExprV>>)>,
    n: nat,
)
    requires
        ties(st, s),
        after_decls(s, ty, vars, n).vars.len() <= usize::MAX,
        n <= vars.len(),
    ensures
        steps(
            st,
            res_decls(st, ty, vars, n).1,
            decls_mean(s, ty, vars, res_decls(st, ty, vars, n).0, n),
        ),
        ties(res_decls(st, ty, vars, n).1, after_decls(s, ty, vars, n)),
        res_decls(st, ty, vars, n).0.len() == n,
    decreases n,
{
    if n > 0 {
        let m = (n - 1) as nat;
        let decl = vars[n - 1];
        let sm = after_decls(s, ty, vars, m);
        lemma_decls(st, s, ty, vars, m);
        let (before, s1) = res_decls(st, ty, vars, m);
        let s2 = match decl.1 {
            Some(e) => res_expr(s1, e).1,
            None => s1,
        };
        if let Some(e) = decl.1 {
            lemma_expr(s1, sm, e);
        }
        if let VarV::Named { ident, .. } = decl.0.value {
            lemma_declared(s2, sm, ident, ty);
        }
        assert(res_decls(st, ty, vars, n).0.drop_last() =~= before);
        assert(steps(s1, res_decl(s1, ty, decl).1, decl_means(sm, decl, res_decl(s1, ty, decl).0)));
    }
}

proof fn lemma_body_count(s: Sight, body: Sp<BodyV>)
    ensures
        s.vars.len() <= after_body(s, body).vars.len(),
    decreases body, 0nat,
{
    match body.value {
        BodyV::Declaration { keyword, vars } => {
            lemma_decls_count(s, type_of(keyword), vars, vars.len());
        },
        BodyV::Loop { block } => lemma_block_count(s, block, block.len()),
        BodyV::While { block, .. } => lemma_block_count(s, block, block.len()),
        _ => {},
    }
}

proof fn lemma_block_count(s: Sight, block: Seq<Sp<StmtV>>, n: nat)
    ensures
        s.vars.len() <= after_block(s, block, n).vars.len(),
    decreases block, n,
{
    if n > 0 && n <= block.len() {
        lemma_block_count(s, block, (n - 1) as nat);
        lemma_body_count(after_block(s, block, (n - 1) as nat), block[n - 1].value.body);
    }
}

/// Back in the scope around a block, the same names can be seen as before it.
proof fn lemma_left(st: ResSt, s: Sight, end: ResSt, inner: Sight, ok: bool)
    requires
        ties(st, s),
        ties(end, inner),
        steps(st, end, ok),
    ensures
        ties((ResSt { scope: st.scope, ..end }), (Sight { seen: s.seen, vars: inner.vars })),
{
    assert forall|name: Seq<char>| #[trigger] resolve_spec(end.vars, st.scope, name) == meaning(
        s.seen,
        name,
    ) by {
        lemma_resolve_monotone(st.vars, end.vars, st.scope, name);
        assert(resolve_spec(st.vars, st.scope, name) == meaning(s.seen, name));
    }
}

proof fn lemma_body(st: ResSt, s: Sight, body: Sp<BodyV>)
    requires
        ties(st, s),
        after_body(s, body).vars.len() <= usize::MAX,
    ensures
        steps(st, res_body(st, body).1, body_means(s, body, res_body(st, body).0)),
        ties(res_body(st, body).1, after_body(s, body)),
    decreases body, 0nat,
{
    match body.value {
        BodyV::CondJump { cond, .. } => lemma_cond(st, s, cond),
        BodyV::Loop { block } => {
            lemma_block(st, s, block, block.len());
            let (out, end) = res_stmts(st, block, block.len());
            let inner = after_block(s, block, block.len());
            lemma_left(st, s, end, inner, block_means(s, block, out, block.len()));
        },
        BodyV::While { cond, block, .. } => {
            lemma_cond(st, s, cond);
            let s1 = res_cond(st, cond).1;
            lemma_block(s1, s, block, block.len());
            let (out, end) = res_stmts(s1, block, block.len());
            let inner = after_block(s, block, block.len());
            lemma_left(s1, s, end, inner, block_means(s, block, out, block.len()));
        },
        BodyV::Expr(e) => lemma_expr(st, s, e),
        BodyV::Assignment { var, value, .. } => {
            lemma_var(st, s, var);
            lemma_expr(res_var(st, var).1, s, value);
        },
        BodyV::Declaration { keyword, vars } => {
            lemma_decls(st, s, type_of(keyword), vars, vars.len());
        },
        _ => {},
    }
}

proof fn lemma_block(st: ResSt, s: Sight, block: Seq<Sp<StmtV>>, n: nat)
    requires
        ties(st, s),
        after_block(s, block, n).vars.len() <= usize::MAX,
        n <= block.len(),
    ensures
        steps(st, res_stmts(st, block, n).1, block_means(s, block, res_stmts(st, block, n).0, n)),
        ties(res_stmts(st, block, n).1, after_block(s, block, n)),
        res_stmts(st, block, n).0.len() == n,
    decreases block, n,
{
    if n > 0 {
        let m = (n - 1) as nat;
        let sm = after_block(s, block, m);
        lemma_body_count(sm, block[n - 1].value.body);
        lemma_block(st, s, block, m);
        let (before, s1) = res_stmts(st, block, m);
        lemma_body(s1, sm, block[n - 1].value.body);
        assert(res_stmts(st, block, n).0.drop_last() =~= before);
    }
}

/// What can be seen before anything is declared: the registers that have names.
pub open spec fn registers(regs: RegsAndInstrs, n: nat) -> Sight
    decreases n,
{
    if n == 0 {
        Sight { seen: seq![], vars: seq![] }
    } else {
        registers(regs, (n - 1) as nat).declare(
            regs.reg_map@[n - 1].0@,
            regs.reg_type_spec(regs.reg_map@[n - 1].1),
        )
    }
}

proof fn lemma_registers(regs: RegsAndInstrs, n: nat)
    requires
        n <= usize::MAX,
    ensures
        ties(
            (ResSt { scope: ScopeId(n as usize), vars: initial_vars(regs, n), errors: seq![] }),
            registers(regs, n),
        ),
        initial_vars(regs, n).len() == n,
    decreases n,
{
    if n > 0 {
        let m = (n - 1) as nat;
        lemma_registers(regs, m);
        lemma_declared(
            ResSt { scope: ScopeId(m as usize), vars: initial_vars(regs, m), errors: seq![] },
            registers(regs, m),
            regs.reg_map@[n - 1].0@,
            regs.reg_type_spec(regs.reg_map@[n - 1].1),
        );
    }
}

/// At first the registers can be seen that have names, and they are all the variables.
pub proof fn law_registers_can_be_seen(regs: RegsAndInstrs)
    ensures
        ties(initial_state(regs), registers(regs, regs.reg_map@.len())),
{
    assert(regs.reg_map.len() == regs.reg_map@.len());
    lemma_registers(regs, regs.reg_map@.len());
}

/// Code is resolved without an error just if every name in it is that of a variable that can be seen
/// from where it stands: one from before the code, or one that was declared before it in its block
/// or in one around that.  Each name is then replaced by the latest such variable.  Behind the code
/// the same names can be seen as before it, and there are, in their order, all the variables that
/// were declared, with the types that they were declared with.
pub proof fn law_names_mean_what_can_be_seen(st: ResSt, s: Sight, code: Seq<Sp<StmtV>>)
    requires
        ties(st, s),
        after_block(s, code, code.len()).vars.len() <= usize::MAX,
    ensures
        ({
            let (out, end) = res_block(st, code);
            let vars = after_block(s, code, code.len()).vars;
            &&& end.errors.len() == st.errors.len() <==> block_means(s, code, out, code.len())
            &&& ties(end, (Sight { seen: s.seen, vars }))
        }),
{
    lemma_block(st, s, code, code.len());
    let (out, end) = res_stmts(st, code, code.len());
    let inner = after_block(s, code, code.len());
    lemma_left(st, s, end, inner, block_means(s, code, out, code.len()));
}

} // verus!
