//! Resolution of variable names.
//!
//! Every name of a variable is replaced by the variable that it means where it stands.  A
//! declaration is visible to the statements that follow it in its block.

use crate::error::{CompileError, Diagnostic, ErrorV};
use crate::ident::Ident;
use crate::pos::{Sp, Spanned};
use crate::scope::{
    is_descendant, lemma_descendant_monotone, lemma_descendant_transitive, resolve_spec,
    variables_wf, NameResolver, ScopeId, VarId, VarInfoV, Variables,
};
use crate::script::{
    body_view, cond_view, decl_view, decls_view, expr_view, exprs_view, field_seq_view, ident_view,
    item_view, items_view, lemma_exprs_view, lemma_field_seq_view, lemma_metas_view,
    lemma_stmts_view, meta_view, metas_view, stmt_view, stmts_view, var_view, Block, BodyV, Cond,
    CondV, Expr, ExprV, Fields, Item, ItemV, Meta, MetaV, Script, ScriptV, StmtBody, StmtV, Var,
    VarDeclKeyword, VarV,
};
use crate::type_system::{RegsAndInstrs, ScalarType, TypeSystem};
use vstd::prelude::*;

verus! {

/// The scope that names are looked up in, the variables that there are, and what went wrong.
#[verifier::ext_equal]
pub ghost struct ResSt {
    pub scope: ScopeId,
    pub vars: Seq<VarInfoV>,
    pub errors: Seq<ErrorV>,
}

impl ResSt {
    pub open spec fn fail(self, e: ErrorV) -> ResSt {
        ResSt { errors: self.errors.push(e), ..self }
    }

    /// The scope is one of those that the variables open.
    pub open spec fn wf(self) -> bool {
        variables_wf(self.vars) && self.scope.0 <= self.vars.len()
    }

    /// Whether another state can come after this one: variables were only added, and the scope
    /// lies inside the scope that there was.
    pub open spec fn leads_to(self, next: ResSt) -> bool {
        &&& next.wf()
        &&& self.vars.len() <= next.vars.len()
        &&& forall|i: int| 0 <= i < self.vars.len() ==> next.vars[i] == self.vars[i]
        &&& is_descendant(next.vars, next.scope, self.scope)
    }
}

/// A variable with its name resolved.
pub open spec fn res_var(st: ResSt, var: Sp<VarV>) -> (Sp<VarV>, ResSt) {
    match var.value {
        VarV::Named { ty_sigil, ident } => match resolve_spec(st.vars, st.scope, ident) {
            Some(var_id) => (
                Spanned { span: var.span, value: VarV::Local { ty_sigil, var_id } },
                st,
            ),
            None => (
                var,
                st.fail(
                    Diagnostic::NoSuchVariable { name: Spanned { span: var.span, value: ident } },
                ),
            ),
        },
        _ => (var, st),
    }
}

pub open spec fn res_expr(st: ResSt, e: Sp<ExprV>) -> (Sp<ExprV>, ResSt)
    decreases e, 0nat,
{
    let (value, st) = match e.value {
        ExprV::Ternary { cond, left, right } => {
            let (cond, st) = res_expr(st, *cond);
            let (left, st) = res_expr(st, *left);
            let (right, st) = res_expr(st, *right);
            (
                ExprV::Ternary {
                    cond: Box::new(cond),
                    left: Box::new(left),
                    right: Box::new(right),
                },
                st,
            )
        },
        ExprV::Binop(a, op, b) => {
            let (a, st) = res_expr(st, *a);
            let (b, st) = res_expr(st, *b);
            (ExprV::Binop(Box::new(a), op, Box::new(b)), st)
        },
        ExprV::Call { func, args } => {
            let (args, st) = res_exprs(st, args, args.len());
            (ExprV::Call { func, args }, st)
        },
        ExprV::Unop(op, b) => {
            let (b, st) = res_expr(st, *b);
            (ExprV::Unop(op, Box::new(b)), st)
        },
        ExprV::Var(var) => {
            let (var, st) = res_var(st, var);
            (ExprV::Var(var), st)
        },
        value => (value, st),
    };
    (Spanned { span: e.span, value }, st)
}

/// The first `n` expressions of a list.
pub open spec fn res_exprs(st: ResSt, es: Seq<Sp<ExprV>>, n: nat) -> (Seq<Sp<ExprV>>, ResSt)
    decreases es, n,
{
    if n == 0 || n > es.len() {
        (seq![], st)
    } else {
        let (out, st) = res_exprs(st, es, (n - 1) as nat);
        let (e, st) = res_expr(st, es[n - 1]);
        (out.push(e), st)
    }
}

pub open spec fn res_cond(st: ResSt, c: Sp<CondV>) -> (Sp<CondV>, ResSt) {
    match c.value {
        CondV::Decrement(var) => {
            let (var, st) = res_var(st, var);
            (Spanned { span: c.span, value: CondV::Decrement(var) }, st)
        },
        CondV::Expr(e) => {
            let (e, st) = res_expr(st, e);
            (Spanned { span: c.span, value: CondV::Expr(e) }, st)
        },
    }
}

pub open spec fn decl_type(keyword: VarDeclKeyword) -> Option<ScalarType> {
    match keyword {
        VarDeclKeyword::Int => Some(ScalarType::Int),
        VarDeclKeyword::Float => Some(ScalarType::Float),
        VarDeclKeyword::Var => None,
    }
}

/// One variable of a declaration.
pub open spec fn res_decl(
    st: ResSt,
    ty: Option<ScalarType>,
    decl: (Sp<VarV>, Option<Sp<ExprV>>),
) -> ((Sp<VarV>, Option<Sp<ExprV>>), ResSt) {
    match decl.0.value {
        VarV::Named { ident, .. } => {
            // a variable should not be allowed to appear in its own initializer, so the
            // expression comes first.
            let (init, st) = match decl.1 {
                Some(e) => {
                    let (e, st) = res_expr(st, e);
                    (Some(e), st)
                },
                None => (None, st),
            };
            if st.vars.len() >= usize::MAX {
                ((decl.0, init), st.fail(Diagnostic::ScriptTooLarge))
            } else {
                // now declare the variable and enter its scope so that it can be used in future
                // expressions
                let var_id = VarId(st.vars.len() as usize);
                (
                    (
                        Spanned {
                            span: decl.0.span,
                            value: VarV::Local { ty_sigil: None, var_id },
                        },
                        init,
                    ),
                    ResSt {
                        scope: ScopeId((st.vars.len() + 1) as usize),
                        vars: st.vars.push(
                            VarInfoV { name: Some(ident), ty, parent: st.scope },
                        ),
                        ..st
                    },
                )
            }
        },
        _ => (decl, st),
    }
}

/// The first `n` variables of a declaration.
pub open spec fn res_decls(
    st: ResSt,
    ty: Option<ScalarType>,
    vars: Seq<(Sp<VarV>, Option<Sp<ExprV>>)>,
    n: nat,
) -> (Seq<(Sp<VarV>, Option<Sp<ExprV>>)>, ResSt)
    decreases n,
{
    if n == 0 {
        (seq![], st)
    } else {
        let (out, st) = res_decls(st, ty, vars, (n - 1) as nat);
        let (decl, st) = res_decl(st, ty, vars[n - 1]);
        (out.push(decl), st)
    }
}

pub open spec fn res_body(st: ResSt, body: Sp<BodyV>) -> (Sp<BodyV>, ResSt)
    decreases body, 0nat,
{
    let (value, st) = match body.value {
        BodyV::CondJump { keyword, cond, jump } => {
            let (cond, st) = res_cond(st, cond);
            (BodyV::CondJump { keyword, cond, jump }, st)
        },
        BodyV::Loop { block } => {
            let (block, st) = res_block(st, block);
            (BodyV::Loop { block }, st)
        },
        BodyV::While { is_do_while, cond, block } => {
            let (cond, st) = res_cond(st, cond);
            let (block, st) = res_block(st, block);
            (BodyV::While { is_do_while, cond, block }, st)
        },
        BodyV::Expr(e) => {
            let (e, st) = res_expr(st, e);
            (BodyV::Expr(e), st)
        },
        BodyV::Assignment { var, op, value } => {
            let (var, st) = res_var(st, var);
            let (value, st) = res_expr(st, value);
            (BodyV::Assignment { var, op, value }, st)
        },
        BodyV::Declaration { keyword, vars } => {
            let (vars, st) = res_decls(st, decl_type(keyword), vars, vars.len());
            (BodyV::Declaration { keyword, vars }, st)
        },
        value => (value, st),
    };
    (Spanned { span: body.span, value }, st)
}

/// The first `n` statements of a block.
pub open spec fn res_stmts(st: ResSt, block: Seq<Sp<StmtV>>, n: nat) -> (Seq<Sp<StmtV>>, ResSt)
    decreases block, n,
{
    if n == 0 || n > block.len() {
        (seq![], st)
    } else {
        let (out, st) = res_stmts(st, block, (n - 1) as nat);
        let stmt = block[n - 1];
        let (body, st) = res_body(st, stmt.value.body);
        (out.push(Spanned { span: stmt.span, value: StmtV { body, ..stmt.value } }), st)
    }
}

/// A block.  What it declares is not visible behind it.
pub open spec fn res_block(st: ResSt, block: Seq<Sp<StmtV>>) -> (Seq<Sp<StmtV>>, ResSt)
    decreases block, block.len() + 1,
{
    let (out, inside) = res_stmts(st, block, block.len());
    (out, ResSt { scope: st.scope, ..inside })
}

pub open spec fn res_meta(st: ResSt, meta: Sp<MetaV>) -> (Sp<MetaV>, ResSt)
    decreases meta, 0nat,
{
    let (value, st) = match meta.value {
        MetaV::Scalar(e) => {
            let (e, st) = res_expr(st, e);
            (MetaV::Scalar(e), st)
        },
        MetaV::Array(items) => {
            let (items, st) = res_metas(st, items, items.len());
            (MetaV::Array(items), st)
        },
        MetaV::Object(fields) => {
            let (v, st) = res_fields(st, fields.value, fields.value.len());
            (MetaV::Object(Spanned { span: fields.span, value: v }), st)
        },
        MetaV::Variant { name, fields } => {
            let (v, st) = res_fields(st, fields.value, fields.value.len());
            (MetaV::Variant { name, fields: Spanned { span: fields.span, value: v } }, st)
        },
    };
    (Spanned { span: meta.span, value }, st)
}

/// The first `n` values of a list.
pub open spec fn res_metas(st: ResSt, items: Seq<Sp<MetaV>>, n: nat) -> (Seq<Sp<MetaV>>, ResSt)
    decreases items, n,
{
    if n == 0 || n > items.len() {
        (seq![], st)
    } else {
        let (out, st) = res_metas(st, items, (n - 1) as nat);
        let (m, st) = res_meta(st, items[n - 1]);
        (out.push(m), st)
    }
}

/// The first `n` fields of an object.
pub open spec fn res_fields(st: ResSt, fields: Seq<(Sp<Seq<char>>, Sp<MetaV>)>, n: nat) -> (
    Seq<(Sp<Seq<char>>, Sp<MetaV>)>,
    ResSt,
)
    decreases fields, n,
{
    if n == 0 || n > fields.len() {
        (seq![], st)
    } else {
        let (out, st) = res_fields(st, fields, (n - 1) as nat);
        let (m, st) = res_meta(st, fields[n - 1].1);
        (out.push((fields[n - 1].0, m)), st)
    }
}

pub open spec fn res_item(st: ResSt, item: Sp<ItemV>) -> (Sp<ItemV>, ResSt) {
    let (value, st) = match item.value {
        ItemV::Meta { keyword, name, fields } => {
            let (v, st) = res_fields(st, fields.value, fields.value.len());
            (ItemV::Meta { keyword, name, fields: Spanned { span: fields.span, value: v } }, st)
        },
        ItemV::AnmScript { number, name, code } => {
            let (code, st) = res_block(st, code);
            (ItemV::AnmScript { number, name, code }, st)
        },
        ItemV::Func { name, code: Some(code) } => {
            let (code, st) = res_block(st, code);
            (ItemV::Func { name, code: Some(code) }, st)
        },
        value => (value, st),
    };
    (Spanned { span: item.span, value }, st)
}

/// The first `n` items of a script.
pub open spec fn res_items(st: ResSt, items: Seq<Sp<ItemV>>, n: nat) -> (Seq<Sp<ItemV>>, ResSt)
    decreases n,
{
    if n == 0 {
        (seq![], st)
    } else {
        let (out, st) = res_items(st, items, (n - 1) as nat);
        let (item, st) = res_item(st, items[n - 1]);
        (out.push(item), st)
    }
}

pub open spec fn res_script(st: ResSt, script: ScriptV) -> (ScriptV, ResSt) {
    let (items, st) = res_items(st, script.items, script.items.len());
    (ScriptV { items, ..script }, st)
}

/// The first `n` named registers as variables, each in the scope of the one before it.
pub open spec fn initial_vars(regs: RegsAndInstrs, n: nat) -> Seq<VarInfoV>
    decreases n,
{
    if n == 0 {
        seq![]
    } else {
        initial_vars(regs, (n - 1) as nat).push(
            VarInfoV {
                name: Some(regs.reg_map@[n - 1].0@),
                ty: regs.reg_type_spec(regs.reg_map@[n - 1].1),
                parent: ScopeId((n - 1) as usize),
            },
        )
    }
}

/// Before anything is declared, the names of all registers are visible.
pub open spec fn initial_state(regs: RegsAndInstrs) -> ResSt {
    let n = regs.reg_map@.len();
    ResSt { scope: ScopeId(n as usize), vars: initial_vars(regs, n), errors: seq![] }
}

// =============================================================================

/// Visitor for the resolution of variable names.
///
/// See the [the module-level documentation][self] for more details.
pub struct Visitor {
    pub resolver: NameResolver,
    pub variables: Variables,
    pub errors: CompileError,
}

/// Given register aliases from mapfiles, create a [`Variables`] with these names and get the
/// scope containing all of the variables.
fn initial_variables(regs: &RegsAndInstrs) -> (r: (Variables, ScopeId))
    ensures
        r.0@ == initial_vars(*regs, regs.reg_map@.len()),
        r.1 == ScopeId(regs.reg_map@.len() as usize),
        variables_wf(r.0@),
        r.0@.len() == regs.reg_map@.len(),
        is_descendant(r.0@, r.1, ScopeId(0)),
{
    let mut variables = Variables::new();
    let mut scope = ScopeId(0);
    let n: usize = regs.reg_map.len();
    let mut i: usize = 0;
    while i < n
        invariant
            i <= n,
            n == regs.reg_map@.len(),
            scope == ScopeId(i),
            variables@ == initial_vars(*regs, i as nat),
            variables@.len() == i,
            variables_wf(variables@),
            is_descendant(variables@, scope, ScopeId(0)),
        decreases n - i,
    {
        let ghost before = variables@;
        let ghost old_scope = scope;
        let ty = regs.reg_type(regs.reg_map[i].1);
        let var_id = variables.declare(scope, regs.reg_map[i].0.clone(), ty);
        scope = variables.get_scope(var_id);
        proof {
            lemma_descendant_monotone(before, variables@, old_scope, ScopeId(0));
        }
        i = i + 1;
    }
    (variables, scope)
}

impl Visitor {
    pub open spec fn st(self) -> ResSt {
        ResSt { scope: self.resolver.scope, vars: self.variables@, errors: self.errors@ }
    }

    /// A visitor that knows the names of registers.
    pub fn new(regs: &RegsAndInstrs) -> (r: Self)
        ensures
            r.st() == initial_state(*regs),
            r.st().wf(),
    {
        let (variables, root_scope) = initial_variables(regs);
        let mut resolver = NameResolver::new();
        resolver.enter_descendant(root_scope, &variables);
        Visitor { resolver, variables, errors: CompileError::new_empty() }
    }

    /// The variables that there are now, unless there were errors.
    pub fn finish(self) -> (r: Result<Variables, CompileError>)
        ensures
            self.errors@.len() == 0 ==> r == Ok::<Variables, CompileError>(self.variables),
            self.errors@.len() != 0 ==> r == Err::<Variables, CompileError>(self.errors),
    {
        self.errors.into_result(self.variables)
    }

    pub fn visit_var(&mut self, var: &mut Sp<Var>)
        requires
            old(self).st().wf(),
        ensures
            final(self).st().wf(),
            old(self).st().leads_to(final(self).st()),
            final(self).resolver == old(self).resolver,
            final(self).variables == old(self).variables,
            (var_view(*final(var)), final(self).st()) == res_var(
                old(self).st(),
                var_view(*old(var)),
            ),
    {
        let resolved: Result<Var, Ident> = match &var.value {
            Var::Named { ty_sigil, ident } => {
                match self.resolver.resolve(ident, &self.variables) {
                    Some(var_id) => Ok(Var::Local { ty_sigil: *ty_sigil, var_id }),
                    None => Err(ident.clone()),
                }
            },
            _ => return ,
        };
        match resolved {
            Ok(value) => {
                var.value = value;
            },
            Err(ident) => {
                self.errors.push(
                    Diagnostic::NoSuchVariable { name: Spanned { span: var.span, value: ident } },
                );
            },
        }
    }

    pub fn visit_expr(&mut self, e: &mut Sp<Expr>)
        requires
            old(self).st().wf(),
        ensures
            final(self).st().wf(),
            old(self).st().leads_to(final(self).st()),
            final(self).resolver == old(self).resolver,
            final(self).variables == old(self).variables,
            (expr_view(*final(e)), final(self).st()) == res_expr(
                old(self).st(),
                expr_view(*old(e)),
            ),
        decreases *old(e),
    {
        match &mut e.value {
            Expr::Ternary { cond, left, right } => {
                self.visit_expr(&mut **cond);
                self.visit_expr(&mut **left);
                self.visit_expr(&mut **right);
            },
            Expr::Binop(a, _, b) => {
                self.visit_expr(&mut **a);
                self.visit_expr(&mut **b);
            },
            Expr::Call { args, .. } => {
                proof {
                    lemma_exprs_view(args@, args@.len());
                }
                self.visit_exprs(args);
            },
            Expr::Unop(_, b) => {
                self.visit_expr(&mut **b);
            },
            Expr::Var(var) => {
                self.visit_var(var);
            },
            _ => {},
        }
    }

    fn visit_exprs(&mut self, es: &mut Vec<Sp<Expr>>)
        requires
            old(self).st().wf(),
        ensures
            final(self).st().wf(),
            old(self).st().leads_to(final(self).st()),
            final(self).resolver == old(self).resolver,
            final(self).variables == old(self).variables,
            (exprs_view(final(es)@, final(es)@.len()), final(self).st()) == res_exprs(
                old(self).st(),
                exprs_view(old(es)@, old(es)@.len()),
                old(es)@.len(),
            ),
        decreases *old(es),
    {
        let n: usize = es.len();
        let ghost all = es@;
        let ghost views = exprs_view(all, all.len());
        let mut i: usize = 0;
        proof {
            lemma_exprs_view(all, all.len());
        }
        while i < n
            invariant
                i <= n,
                n == es@.len(),
                n == all.len(),
                all == old(es)@,
                views.len() == n,
                forall|j: int| 0 <= j < n ==> #[trigger] views[j] == expr_view(all[j]),
                self.st().wf(),
                self.resolver == old(self).resolver,
                self.variables == old(self).variables,
                forall|j: int| i <= j < n ==> es@[j] == all[j],
                exprs_view(es@, i as nat) == res_exprs(old(self).st(), views, i as nat).0,
                self.st() == res_exprs(old(self).st(), views, i as nat).1,
            decreases n - i,
        {
            assert(decreases_to!(*old(es) => all[i as int]));
            assert(views[i as int] == expr_view(all[i as int]));
            let ghost before = es@;
            self.visit_expr(&mut es[i]);
            proof {
                lemma_exprs_view(before, i as nat);
                lemma_exprs_view(es@, i as nat);
                assert(exprs_view(before, i as nat) =~= exprs_view(es@, i as nat));
            }
            i = i + 1;
        }
    }

    fn visit_cond(&mut self, c: &mut Sp<Cond>)
        requires
            old(self).st().wf(),
        ensures
            final(self).st().wf(),
            old(self).st().leads_to(final(self).st()),
            final(self).resolver == old(self).resolver,
            final(self).variables == old(self).variables,
            (cond_view(*final(c)), final(self).st()) == res_cond(
                old(self).st(),
                cond_view(*old(c)),
            ),
    {
        match &mut c.value {
            Cond::Decrement(var) => {
                self.visit_var(var);
            },
            Cond::Expr(e) => {
                self.visit_expr(e);
            },
        }
    }

    fn visit_decl(&mut self, ty: Option<ScalarType>, decl: &mut (Sp<Var>, Option<Sp<Expr>>))
        requires
            old(self).st().wf(),
        ensures
            final(self).st().wf(),
            old(self).st().leads_to(final(self).st()),
            (decl_view(*final(decl)), final(self).st()) == res_decl(
                old(self).st(),
                ty,
                decl_view(*old(decl)),
            ),
    {
        let ident = match &decl.0.value {
            Var::Named { ident, .. } => ident.clone(),
            _ => return ,
        };
        // a variable should not be allowed to appear in its own initializer, so walk the
        // expression first.
        match &mut decl.1 {
            Some(e) => {
                self.visit_expr(e);
            },
            None => {},
        }
        if self.variables.vars.len() >= usize::MAX {
            self.errors.push(Diagnostic::ScriptTooLarge);
            return ;
        }
        // now declare the variable and enter its scope so that it can be used in future
        // expressions
        let ghost before = self.variables@;
        let scope = self.resolver.current_scope();
        let var_id = self.variables.declare(scope, ident, ty);
        let new_scope = self.variables.get_scope(var_id);
        proof {
            assert(is_descendant(self.variables@, scope, scope));
            lemma_descendant_monotone(before, self.variables@, scope, old(self).resolver.scope);
        }
        self.resolver.enter_descendant(new_scope, &self.variables);

        // swap out the AST node
        decl.0.value = Var::Local { ty_sigil: None, var_id };
    }

    fn visit_decls(&mut self, ty: Option<ScalarType>, vars: &mut Vec<(Sp<Var>, Option<Sp<Expr>>)>)
        requires
            old(self).st().wf(),
        ensures
            final(self).st().wf(),
            old(self).st().leads_to(final(self).st()),
            (decls_view(final(vars)@), final(self).st()) == res_decls(
                old(self).st(),
                ty,
                decls_view(old(vars)@),
                old(vars)@.len(),
            ),
    {
        let n: usize = vars.len();
        let ghost all = vars@;
        let ghost views = decls_view(all);
        let mut i: usize = 0;
        assert(decls_view(vars@).take(0) =~= seq![]);
        while i < n
            invariant
                i <= n,
                n == vars@.len(),
                n == all.len(),
                all == old(vars)@,
                views == decls_view(all),
                self.st().wf(),
                old(self).st().leads_to(self.st()),
                forall|j: int| i <= j < n ==> vars@[j] == all[j],
                decls_view(vars@).take(i as int) == res_decls(
                    old(self).st(),
                    ty,
                    views,
                    i as nat,
                ).0,
                self.st() == res_decls(old(self).st(), ty, views, i as nat).1,
            decreases n - i,
        {
            assert(views[i as int] == decl_view(all[i as int]));
            let ghost before = vars@;
            let ghost st = self.st();
            self.visit_decl(ty, &mut vars[i]);
            proof {
                lemma_leads_to_transitive(old(self).st(), st, self.st());
                assert(decls_view(vars@)[i as int] == decl_view(vars@[i as int]));
                assert(decls_view(vars@).take(i + 1) =~= decls_view(before).take(i as int).push(
                    decl_view(vars@[i as int]),
                ));
            }
            i = i + 1;
        }
        assert(decls_view(vars@).take(n as int) =~= decls_view(vars@));
    }

    pub fn visit_stmt_body(&mut self, body: &mut Sp<StmtBody>)
        requires
            old(self).st().wf(),
        ensures
            final(self).st().wf(),
            old(self).st().leads_to(final(self).st()),
            (body_view(*final(body)), final(self).st()) == res_body(
                old(self).st(),
                body_view(*old(body)),
            ),
        decreases *old(body),
    {
        match &mut body.value {
            StmtBody::CondJump { cond, .. } => {
                self.visit_cond(cond);
            },
            StmtBody::Loop { block } => {
                self.visit_block(block);
            },
            StmtBody::While { cond, block, .. } => {
                self.visit_cond(cond);
                let ghost st = self.st();
                self.visit_block(block);
                proof {
                    lemma_leads_to_transitive(old(self).st(), st, self.st());
                }
            },
            StmtBody::Expr(e) => {
                self.visit_expr(e);
            },
            StmtBody::Assignment { var, value, .. } => {
                self.visit_var(var);
                self.visit_expr(value);
            },
            StmtBody::Declaration { keyword, vars } => {
                let ty = match keyword {
                    VarDeclKeyword::Int => Some(ScalarType::Int),
                    VarDeclKeyword::Float => Some(ScalarType::Float),
                    VarDeclKeyword::Var => None,
                };
                self.visit_decls(ty, vars);
            },
            _ => {},
        }
    }

    pub fn visit_block(&mut self, block: &mut Block)
        requires
            old(self).st().wf(),
        ensures
            final(self).st().wf(),
            old(self).st().leads_to(final(self).st()),
            (final(block)@, final(self).st()) == res_block(old(self).st(), old(block)@),
        decreases *old(block),
    {
        let original = self.resolver.current_scope();
        let n: usize = block.0.len();
        let ghost all = block.0@;
        let ghost views = stmts_view(all, all.len());
        let mut i: usize = 0;
        proof {
            lemma_stmts_view(all, all.len());
        }
        while i < n
            invariant
                i <= n,
                n == block.0@.len(),
                n == all.len(),
                all == old(block).0@,
                views.len() == n,
                forall|j: int| 0 <= j < n ==> #[trigger] views[j] == stmt_view(all[j]),
                self.st().wf(),
                old(self).st().leads_to(self.st()),
                forall|j: int| i <= j < n ==> block.0@[j] == all[j],
                stmts_view(block.0@, i as nat) == res_stmts(old(self).st(), views, i as nat).0,
                self.st() == res_stmts(old(self).st(), views, i as nat).1,
            decreases n - i,
        {
            assert(decreases_to!(old(block).0 => all[i as int]));
            assert(views[i as int] == stmt_view(all[i as int]));
            let ghost before = block.0@;
            let ghost st = self.st();
            self.visit_stmt_body(&mut block.0[i].value.body);
            proof {
                lemma_leads_to_transitive(old(self).st(), st, self.st());
                lemma_stmts_view(before, i as nat);
                lemma_stmts_view(block.0@, i as nat);
                assert(stmts_view(before, i as nat) =~= stmts_view(block.0@, i as nat));
                assert(block.0@[i as int].span == all[i as int].span);
                assert(block.0@[i as int].value.time == all[i as int].value.time);
                assert(block.0@[i as int].value.labels == all[i as int].value.labels);
                assert(stmt_view(block.0@[i as int]).value.labels == views[i as int].value.labels);
            }
            i = i + 1;
        }
        self.resolver.return_to_ancestor(original, &self.variables);
    }

    fn visit_meta(&mut self, meta: &mut Sp<Meta>)
        requires
            old(self).st().wf(),
        ensures
            final(self).st().wf(),
            old(self).st().leads_to(final(self).st()),
            (meta_view(*final(meta)), final(self).st()) == res_meta(
                old(self).st(),
                meta_view(*old(meta)),
            ),
        decreases *old(meta),
    {
        match &mut meta.value {
            Meta::Scalar(e) => {
                self.visit_expr(e);
            },
            Meta::Array(items) => {
                proof {
                    lemma_metas_view(items@, items@.len());
                }
                self.visit_metas(items);
            },
            Meta::Object(fields) => {
                proof {
                    lemma_field_seq_view(fields.value.0@, fields.value.0@.len());
                }
                self.visit_fields(&mut fields.value);
            },
            Meta::Variant { fields, .. } => {
                proof {
                    lemma_field_seq_view(fields.value.0@, fields.value.0@.len());
                }
                self.visit_fields(&mut fields.value);
            },
        }
    }

    fn visit_metas(&mut self, items: &mut Vec<Sp<Meta>>)
        requires
            old(self).st().wf(),
        ensures
            final(self).st().wf(),
            old(self).st().leads_to(final(self).st()),
            (metas_view(final(items)@, final(items)@.len()), final(self).st()) == res_metas(
                old(self).st(),
                metas_view(old(items)@, old(items)@.len()),
                old(items)@.len(),
            ),
        decreases *old(items),
    {
        let n: usize = items.len();
        let ghost all = items@;
        let ghost views = metas_view(all, all.len());
        let mut i: usize = 0;
        proof {
            lemma_metas_view(all, all.len());
        }
        while i < n
            invariant
                i <= n,
                n == items@.len(),
                n == all.len(),
                all == old(items)@,
                views.len() == n,
                forall|j: int| 0 <= j < n ==> #[trigger] views[j] == meta_view(all[j]),
                self.st().wf(),
                old(self).st().leads_to(self.st()),
                forall|j: int| i <= j < n ==> items@[j] == all[j],
                metas_view(items@, i as nat) == res_metas(old(self).st(), views, i as nat).0,
                self.st() == res_metas(old(self).st(), views, i as nat).1,
            decreases n - i,
        {
            assert(decreases_to!(*old(items) => all[i as int]));
            assert(views[i as int] == meta_view(all[i as int]));
            let ghost before = items@;
            let ghost st = self.st();
            self.visit_meta(&mut items[i]);
            proof {
                lemma_leads_to_transitive(old(self).st(), st, self.st());
                lemma_metas_view(before, i as nat);
                lemma_metas_view(items@, i as nat);
                assert(metas_view(before, i as nat) =~= metas_view(items@, i as nat));
            }
            i = i + 1;
        }
    }

    fn visit_fields(&mut self, fields: &mut Fields)
        requires
            old(self).st().wf(),
        ensures
            final(self).st().wf(),
            old(self).st().leads_to(final(self).st()),
            (final(fields)@, final(self).st()) == res_fields(
                old(self).st(),
                old(fields)@,
                old(fields)@.len(),
            ),
        decreases *old(fields),
    {
        let n: usize = fields.0.len();
        let ghost all = fields.0@;
        let ghost views = field_seq_view(all, all.len());
        let mut i: usize = 0;
        proof {
            lemma_field_seq_view(all, all.len());
        }
        while i < n
            invariant
                i <= n,
                n == fields.0@.len(),
                n == all.len(),
                all == old(fields).0@,
                views.len() == n,
                forall|j: int|
                    0 <= j < n ==> #[trigger] views[j] == (
                        ident_view(all[j].0),
                        meta_view(all[j].1),
                    ),
                self.st().wf(),
                old(self).st().leads_to(self.st()),
                forall|j: int| i <= j < n ==> fields.0@[j] == all[j],
                field_seq_view(fields.0@, i as nat) == res_fields(
                    old(self).st(),
                    views,
                    i as nat,
                ).0,
                self.st() == res_fields(old(self).st(), views, i as nat).1,
            decreases n - i,
        {
            assert(decreases_to!(old(fields).0 => all[i as int]));
            assert(views[i as int] == (ident_view(all[i as int].0), meta_view(all[i as int].1)));
            let ghost before = fields.0@;
            let ghost st = self.st();
            self.visit_meta(&mut fields.0[i].1);
            proof {
                lemma_leads_to_transitive(old(self).st(), st, self.st());
                lemma_field_seq_view(before, i as nat);
                lemma_field_seq_view(fields.0@, i as nat);
                assert(field_seq_view(before, i as nat) =~= field_seq_view(fields.0@, i as nat));
            }
            i = i + 1;
        }
    }

    fn visit_item(&mut self, item: &mut Sp<Item>)
        requires
            old(self).st().wf(),
        ensures
            final(self).st().wf(),
            old(self).st().leads_to(final(self).st()),
            (item_view(*final(item)), final(self).st()) == res_item(
                old(self).st(),
                item_view(*old(item)),
            ),
    {
        match &mut item.value {
            Item::Meta { fields, .. } => {
                self.visit_fields(&mut fields.value);
            },
            Item::AnmScript { code, .. } => {
                self.visit_block(code);
            },
            Item::Func { code, .. } => match code {
                Some(block) => {
                    self.visit_block(block);
                },
                None => {},
            },
            Item::FileList { .. } => {},
        }
    }

    pub fn visit_script(&mut self, script: &mut Script)
        requires
            old(self).st().wf(),
        ensures
            final(self).st().wf(),
            old(self).st().leads_to(final(self).st()),
            (final(script)@, final(self).st()) == res_script(old(self).st(), old(script)@),
    {
        let n: usize = script.items.len();
        let ghost all = script.items@;
        let ghost views = script@.items;
        let mut i: usize = 0;
        assert(items_view(script.items@).take(0) =~= seq![]);
        while i < n
            invariant
                i <= n,
                n == script.items@.len(),
                n == all.len(),
                all == old(script).items@,
                script.mapfiles == old(script).mapfiles,
                views == items_view(all),
                self.st().wf(),
                old(self).st().leads_to(self.st()),
                forall|j: int| i <= j < n ==> script.items@[j] == all[j],
                items_view(script.items@).take(i as int) == res_items(
                    old(self).st(),
                    views,
                    i as nat,
                ).0,
                self.st() == res_items(old(self).st(), views, i as nat).1,
            decreases n - i,
        {
            assert(views[i as int] == item_view(all[i as int]));
            let ghost before = script.items@;
            let ghost st = self.st();
            self.visit_item(&mut script.items[i]);
            proof {
                lemma_leads_to_transitive(old(self).st(), st, self.st());
                assert(items_view(script.items@)[i as int] == item_view(script.items@[i as int]));
                assert(items_view(script.items@).take(i + 1) =~= items_view(before).take(
                    i as int,
                ).push(item_view(script.items@[i as int])));
            }
            i = i + 1;
        }
        assert(items_view(script.items@).take(n as int) =~= items_view(script.items@));
    }
}

proof fn lemma_leads_to_transitive(a: ResSt, b: ResSt, c: ResSt)
    requires
        a.leads_to(b),
        b.leads_to(c),
    ensures
        a.leads_to(c),
{
    lemma_descendant_monotone(b.vars, c.vars, b.scope, a.scope);
    lemma_descendant_transitive(c.vars, c.scope, b.scope, a.scope);
}

impl TypeSystem {
    /// Resolve all names of variables in a script, and remember the variables.
    pub fn resolve_names(&mut self, script: &mut Script) -> (r: Result<(), CompileError>)
        ensures
            final(self).regs_and_instrs == old(self).regs_and_instrs,
            final(self).gensym_ctx == old(self).gensym_ctx,
            ({
                let (out, st) = res_script(
                    initial_state(old(self).regs_and_instrs),
                    old(script)@,
                );
                &&& final(script)@ == out
                &&& st.errors.len() == 0 ==> r is Ok && final(self).variables@ == st.vars
                    && variables_wf(final(self).variables@)
                &&& st.errors.len() != 0 ==> final(self).variables == old(self).variables && (
                r matches Err(e) && e@ == st.errors)
            }),
    {
        let mut visitor = Visitor::new(&self.regs_and_instrs);
        visitor.visit_script(script);
        match visitor.finish() {
            Ok(variables) => {
                self.variables = variables;
                Ok(())
            },
            Err(e) => Err(e),
        }
    }
}

/// Whether no name of a variable is left in an expression.
pub open spec fn nameless(e: Sp<ExprV>) -> bool
    decreases e, 0nat,
{
    match e.value {
        ExprV::Ternary { cond, left, right } => nameless(*cond) && nameless(*left) && nameless(
            *right,
        ),
        ExprV::Binop(a, _, b) => nameless(*a) && nameless(*b),
        ExprV::Call { args, .. } => all_nameless(args, args.len()),
        ExprV::Unop(_, b) => nameless(*b),
        ExprV::Var(var) => !(var.value is Named),
        _ => true,
    }
}

/// Whether no name of a variable is left in the first `n` expressions of a list.
pub open spec fn all_nameless(es: Seq<Sp<ExprV>>, n: nat) -> bool
    decreases es, n,
{
    if n == 0 || n > es.len() {
        true
    } else {
        all_nameless(es, (n - 1) as nat) && nameless(es[n - 1])
    }
}

/// Resolving an expression finds errors or leaves no name in it, and changes neither the
/// variables nor the scope.
pub proof fn law_resolved_expr_has_no_names(st: ResSt, e: Sp<ExprV>)
    ensures
        res_expr(st, e).1.vars == st.vars,
        res_expr(st, e).1.scope == st.scope,
        st.errors.len() <= res_expr(st, e).1.errors.len(),
        st.errors.len() == res_expr(st, e).1.errors.len() ==> nameless(res_expr(st, e).0),
    decreases e, 0nat,
{
    match e.value {
        ExprV::Ternary { cond, left, right } => {
            law_resolved_expr_has_no_names(st, *cond);
            let (_, st1) = res_expr(st, *cond);
            law_resolved_expr_has_no_names(st1, *left);
            let (_, st2) = res_expr(st1, *left);
            law_resolved_expr_has_no_names(st2, *right);
        },
        ExprV::Binop(a, op, b) => {
            law_resolved_expr_has_no_names(st, *a);
            let (_, st1) = res_expr(st, *a);
            law_resolved_expr_has_no_names(st1, *b);
        },
        ExprV::Call { func, args } => {
            lemma_resolved_exprs(st, args, args.len());
            let out = res_exprs(st, args, args.len()).0;
            assert(out.take(out.len() as int) =~= out);
        },
        ExprV::Unop(op, b) => {
            law_resolved_expr_has_no_names(st, *b);
        },
        _ => {},
    }
}

proof fn lemma_resolved_exprs(st: ResSt, es: Seq<Sp<ExprV>>, n: nat)
    requires
        n <= es.len(),
    ensures
        res_exprs(st, es, n).0.len() == n,
        res_exprs(st, es, n).1.vars == st.vars,
        res_exprs(st, es, n).1.scope == st.scope,
        st.errors.len() <= res_exprs(st, es, n).1.errors.len(),
        st.errors.len() == res_exprs(st, es, n).1.errors.len() ==> all_nameless(
            res_exprs(st, es, n).0,
            n,
        ),
    decreases es, n,
{
    if n > 0 {
        lemma_resolved_exprs(st, es, (n - 1) as nat);
        let (out, st1) = res_exprs(st, es, (n - 1) as nat);
        law_resolved_expr_has_no_names(st1, es[n - 1]);
        let all = res_exprs(st, es, n).0;
        assert(all == out.push(res_expr(st1, es[n - 1]).0));
        lemma_nameless_prefix(all, out, (n - 1) as nat);
    }
}

proof fn lemma_nameless_prefix(a: Seq<Sp<ExprV>>, b: Seq<Sp<ExprV>>, n: nat)
    requires
        n <= a.len(),
        n <= b.len(),
        forall|i: int| 0 <= i < n ==> a[i] == b[i],
    ensures
        all_nameless(a, n) == all_nameless(b, n),
    decreases n,
{
    if n > 0 {
        lemma_nameless_prefix(a, b, (n - 1) as nat);
    }
}

} // verus!
