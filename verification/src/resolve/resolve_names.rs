//! Name resolution.
//!
//! The way it works is by visiting AST nodes in a particular order based on what ought to
//! be in scope at any given point in the graph.

use crate::ast::visit::{Node, Visitable};
use crate::ast::{
    Block, CallableName, CondBlock, Expr, ExprCall, FuncParam, Item, Meta, PseudoArg, ScriptFile,
    Stmt, StmtKind, TypeKeyword, Var, VarName,
};
use crate::context::{
    declared_sig, infos_view, param_view, CompilerContext, DefInfo, DefTables, EnumConst, InfoV,
    ParamV, SigV, Signature, TypeColor,
};
use crate::game::LanguageKey;
use crate::ident::{Ident, ResIdent};
use crate::pos::{Sp, Span, Spanned};
use crate::resolve::rib::{
    resolve_error_view, resolve_spec, ribs_view, stacks_of, BarrierKind, Query, ResolveError, Rib,
    RibEntry, RibKind, RibStacks, RibV, StacksV,
};
use crate::resolve::{own_def, res_number, DefId, Namespace};
use crate::value::VarType;
use vstd::prelude::*;

verus! {

broadcast use vstd::std_specs::hash::group_hash_axioms;

/// What name resolution has to say about a script, with names of type `N`.
#[derive(Debug)]
#[allow(inconsistent_fields)]
pub enum NameDiag<N> {
    /// A name that stands for nothing here.
    Resolve(ResolveError<N>),
    /// "redefinition of {noun}"
    Redefinition { ns: Namespace, kind: RibKind, name: N, span: Span, original: Span },
    /// "no enum const {enum_name}.{name}"
    NoEnumConst { enum_name: N, name: N, span: Span },
    /// "ambiguous enum const"
    AmbiguousEnumConst { name: N, span: Span },
    /// "suspicious use of enum", which is only a warning
    SuspiciousEnumConst { const_enum: N, name: N, expected_enum: N, span: Span },
    /// A mention of a name that was resolved before, or that is not counted.
    BadMention { span: Span },
}

/// A diagnostic as contracts speak of it.
pub type NameDiagV = NameDiag<Seq<char>>;

pub open spec fn diag_view(d: NameDiag<Ident>) -> NameDiagV {
    match d {
        NameDiag::Resolve(e) => NameDiag::Resolve(resolve_error_view(e)),
        NameDiag::Redefinition { ns, kind, name, span, original } => NameDiag::Redefinition {
            ns,
            kind,
            name: name@,
            span,
            original,
        },
        NameDiag::NoEnumConst { enum_name, name, span } => NameDiag::NoEnumConst {
            enum_name: enum_name@,
            name: name@,
            span,
        },
        NameDiag::AmbiguousEnumConst { name, span } => NameDiag::AmbiguousEnumConst {
            name: name@,
            span,
        },
        NameDiag::SuspiciousEnumConst { const_enum, name, expected_enum, span } =>
            NameDiag::SuspiciousEnumConst {
                const_enum: const_enum@,
                name: name@,
                expected_enum: expected_enum@,
                span,
            },
        NameDiag::BadMention { span } => NameDiag::BadMention { span },
    }
}

pub open spec fn diags_view(d: Seq<NameDiag<Ident>>) -> Seq<NameDiagV> {
    d.map_values(|x: NameDiag<Ident>| diag_view(x))
}

/// The state of name resolution.
#[verifier::ext_equal]
pub ghost struct NameSt {
    pub ribs: StacksV,
    /// What mentions of names were resolved to.
    pub map: Seq<Option<DefId>>,
    /// What definitions are.
    pub infos: Map<u32, InfoV>,
    pub diags: Seq<NameDiagV>,
}

impl NameSt {
    pub open spec fn say(self, d: NameDiagV) -> NameSt {
        NameSt { diags: self.diags.push(d), ..self }
    }

    /// Whether a name is a mention that is counted.
    pub open spec fn knows(self, ident: ResIdent) -> bool {
        ident.res is Some && 0 < res_number(ident) < self.map.len()
    }

    /// Record what a name stands for.
    pub open spec fn record(self, ident: ResIdent, def: DefId, span: Span) -> NameSt {
        if self.knows(ident) && self.map[res_number(ident)] is None {
            NameSt { map: self.map.update(res_number(ident), Some(def)), ..self }
        } else {
            self.say(NameDiag::BadMention { span })
        }
    }

    /// Whether a name can stand for itself.
    pub open spec fn can_define(self, ident: ResIdent) -> bool {
        self.knows(ident) && (self.map[res_number(ident)] is None || self.map[res_number(ident)]
            == Some(own_def(ident)))
    }

    /// Make a definition of a name, and add it to the top rib of a namespace.
    pub open spec fn define(self, ns: Namespace, ident: Sp<ResIdent>, info: InfoV) -> NameSt {
        if !self.can_define(ident.value) {
            self.say(NameDiag::BadMention { span: ident.span })
        } else {
            let def = own_def(ident.value);
            let st = NameSt {
                map: self.map.update(res_number(ident.value), Some(def)),
                infos: self.infos.insert(def.0, info),
                ..self
            };
            st.add_to_rib(ns, ident.value@, ident.span, def)
        }
    }

    /// Add a name to the top rib of a namespace.
    pub open spec fn add_to_rib(self, ns: Namespace, name: Seq<char>, span: Span, def: DefId) -> NameSt {
        let top = self.ribs.of(ns).last();
        let entry = RibEntry { def_id: def, def_ident_span: span };
        let now = RibV { defs: top.defs.insert(name, entry), ..top };
        let st = NameSt {
            ribs: self.ribs.with(ns, self.ribs.of(ns).drop_last().push(now)),
            ..self
        };
        if top.defs.contains_key(name) {
            st.say(
                NameDiag::Redefinition {
                    ns,
                    kind: top.kind,
                    name,
                    span,
                    original: top.defs[name].def_ident_span,
                },
            )
        } else {
            st
        }
    }

    pub open spec fn enter(self, ns: Namespace, kind: RibKind) -> NameSt {
        NameSt { ribs: self.ribs.enter_new(ns, kind), ..self }
    }

    pub open spec fn leave(self, ns: Namespace) -> NameSt {
        NameSt { ribs: self.ribs.leave(ns), ..self }
    }

    /// The definition of a name that was resolved.
    pub open spec fn info(self, ident: ResIdent) -> Option<InfoV> {
        if self.knows(ident) {
            match self.map[res_number(ident)] {
                Some(def) => if self.infos.contains_key(def.0) {
                    Some(self.infos[def.0])
                } else {
                    None
                },
                None => None,
            }
        } else {
            None
        }
    }

    /// The signature of what is called, if it is known.
    pub open spec fn signature(self, cx: DefTables, name: CallableName) -> Option<SigV> {
        match name {
            CallableName::Ins { opcode, language } => match language {
                Some(language) => ins_sig(cx, language, opcode),
                None => None,
            },
            CallableName::Normal { ident, .. } => match self.info(ident) {
                Some(InfoV::Func { siggy }) => Some(siggy),
                Some(InfoV::InsAlias { language, opcode }) => ins_sig(cx, language, opcode),
                _ => None,
            },
        }
    }
}

/// The signature of an instruction, if it is known.
pub open spec fn ins_sig(cx: DefTables, language: LanguageKey, opcode: u16) -> Option<SigV> {
    match cx.ins_signature_spec(language, opcode) {
        Ok(siggy) => Some(siggy@),
        Err(_) => None,
    }
}

// =============================================================================
// Expressions

/// An enum whose constants are expected.
pub type ColorV = Option<Seq<char>>;

pub open spec fn res_qualified(
    cx: DefTables,
    st: NameSt,
    span: Span,
    enum_name: Seq<char>,
    ident: ResIdent,
) -> NameSt {
    match cx.enum_const_def_spec(enum_name, ident@) {
        Some(def) => st.record(ident, def, span),
        None => st.say(NameDiag::NoEnumConst { enum_name, name: ident@, span }),
    }
}

/// What a bare name stands for that is only known to be a constant of some enum.
pub open spec fn res_unqualified(
    cx: DefTables,
    st: NameSt,
    color: ColorV,
    span: Span,
    ident: ResIdent,
) -> NameSt {
    let expected = match color {
        Some(enum_name) => cx.enum_const_def_spec(enum_name, ident@),
        None => None,
    };
    match expected {
        Some(def) => st.record(ident, def, span),
        None => match cx.unqualified_spec(ident@) {
            Some(i) => {
                let found = cx.enum_consts@[i];
                let st = st.record(ident, found.def_id, span);
                match color {
                    Some(expected_enum) => st.say(
                        NameDiag::SuspiciousEnumConst {
                            const_enum: found.enum_name@,
                            name: ident@,
                            expected_enum,
                            span,
                        },
                    ),
                    None => st,
                }
            },
            None => st.say(NameDiag::AmbiguousEnumConst { name: ident@, span }),
        },
    }
}

pub open spec fn res_var(cx: DefTables, st: NameSt, color: ColorV, var: Sp<Var>) -> NameSt {
    match var.value.name {
        VarName::Reg { .. } => st,
        VarName::Normal { ident, language_if_reg } => {
            let q = Query {
                ns: Namespace::Vars,
                span: var.span,
                alias_language: language_if_reg,
                name: ident@,
            };
            match resolve_spec(st.ribs.vars, q) {
                Err(e) => st.say(NameDiag::Resolve(e)),
                Ok(def) => if def == cx.enum_const_dummy {
                    res_unqualified(cx, st, color, var.span, ident)
                } else {
                    st.record(ident, def, var.span)
                },
            }
        },
    }
}

/// Resolve the name of what is called, and tell whether it was found.
pub open spec fn res_callable(st: NameSt, name: Sp<CallableName>) -> (bool, NameSt) {
    match name.value {
        CallableName::Ins { .. } => (true, st),
        CallableName::Normal { ident, language_if_ins } => {
            let q = Query {
                ns: Namespace::Funcs,
                span: name.span,
                alias_language: language_if_ins,
                name: ident@,
            };
            match resolve_spec(st.ribs.funcs, q) {
                Err(e) => (false, st.say(NameDiag::Resolve(e))),
                Ok(def) => (true, st.record(ident, def, name.span)),
            }
        },
    }
}

pub open spec fn res_expr(cx: DefTables, st: NameSt, color: ColorV, e: Sp<Expr>) -> NameSt
    decreases e, 0nat,
{
    match e.value {
        Expr::Ternary { cond, left, right, .. } => {
            let st = res_expr(cx, st, color, *cond);
            let st = res_expr(cx, st, color, *left);
            res_expr(cx, st, color, *right)
        },
        Expr::BinOp(a, _, b) => {
            let st = res_expr(cx, st, color, *a);
            res_expr(cx, st, color, *b)
        },
        Expr::UnOp(_, x) => res_expr(cx, st, color, *x),
        Expr::XcrementOp { var, .. } => res_var(cx, st, color, var),
        Expr::Var(var) => res_var(cx, st, color, var),
        Expr::DiffSwitch(cases) => res_cases(cx, st, color, cases@, cases@.len()),
        Expr::Call(call) => res_call(cx, st, color, call),
        // qualified enum consts bypass the rib stack so that `const`s can't shadow them
        Expr::EnumConst { enum_name, ident } => res_qualified(
            cx,
            st,
            e.span,
            enum_name.value@,
            ident.value,
        ),
        _ => st,
    }
}

/// The state behind the first `n` cases of a difficulty switch.
pub open spec fn res_cases(
    cx: DefTables,
    st: NameSt,
    color: ColorV,
    cases: Seq<Option<Sp<Expr>>>,
    n: nat,
) -> NameSt
    decreases cases, n,
{
    if n == 0 || n > cases.len() {
        st
    } else {
        let st = res_cases(cx, st, color, cases, (n - 1) as nat);
        match cases[n - 1] {
            Some(case) => res_expr(cx, st, color, case),
            None => st,
        }
    }
}

/// The state behind the first `n` pseudo-arguments.
pub open spec fn res_pseudos(
    cx: DefTables,
    st: NameSt,
    color: ColorV,
    pseudos: Seq<Sp<PseudoArg>>,
    n: nat,
) -> NameSt
    decreases pseudos, n,
{
    if n == 0 || n > pseudos.len() {
        st
    } else {
        let st = res_pseudos(cx, st, color, pseudos, (n - 1) as nat);
        res_expr(cx, st, color, pseudos[n - 1].value.value)
    }
}

/// The state behind the first `n` arguments of a call.  Where the parameters are known, each gives
/// its argument a color, and arguments without a parameter are skipped.
pub open spec fn res_args(
    cx: DefTables,
    st: NameSt,
    color: ColorV,
    params: Option<Seq<ColorV>>,
    args: Seq<Sp<Expr>>,
    n: nat,
) -> NameSt
    decreases args, n,
{
    if n == 0 || n > args.len() {
        st
    } else {
        let st = res_args(cx, st, color, params, args, (n - 1) as nat);
        match params {
            None => res_expr(cx, st, color, args[n - 1]),
            Some(colors) => if n <= colors.len() {
                res_expr(cx, st, colors[n - 1], args[n - 1])
            } else {
                st
            },
        }
    }
}

/// The colors of the parameters of a function.
pub open spec fn colors_of(siggy: Option<SigV>) -> Option<Seq<ColorV>> {
    match siggy {
        Some(siggy) => Some(siggy.params.map_values(|p: ParamV| p.color)),
        None => None,
    }
}

pub open spec fn res_call(cx: DefTables, st: NameSt, color: ColorV, call: ExprCall) -> NameSt
    decreases call, 0nat,
{
    let st = res_pseudos(cx, st, color, call.pseudos@, call.pseudos@.len());
    // resolve the function name now so we can get its signature
    let (found, st) = res_callable(st, call.name);
    let siggy = if found {
        st.signature(cx, call.name.value)
    } else {
        None
    };
    res_args(cx, st, color, colors_of(siggy), call.args@, call.args@.len())
}

/// The state behind the first `n` expressions of a list.
pub open spec fn res_exprs(cx: DefTables, st: NameSt, es: Seq<Sp<Expr>>, n: nat) -> NameSt
    decreases n,
{
    if n == 0 || n > es.len() {
        st
    } else {
        res_expr(cx, res_exprs(cx, st, es, (n - 1) as nat), None, es[n - 1])
    }
}

pub open spec fn res_opt_expr(cx: DefTables, st: NameSt, e: Option<Sp<Expr>>) -> NameSt {
    match e {
        Some(e) => res_expr(cx, st, None, e),
        None => st,
    }
}

// =============================================================================
// Statements

/// The state behind the first `n` variables of a declaration.
pub open spec fn res_decls(
    cx: DefTables,
    st: NameSt,
    ty: VarType,
    vars: Seq<Sp<(Sp<Var>, Option<Sp<Expr>>)>>,
    n: nat,
) -> NameSt
    decreases n,
{
    if n == 0 {
        st
    } else {
        let st = res_decls(cx, st, ty, vars, (n - 1) as nat);
        let (var, value) = vars[n - 1].value;
        match var.value.name {
            // a variable should not be allowed to appear in its own initializer, so walk that first
            VarName::Normal { ident, .. } => res_opt_expr(cx, st, value).define(
                Namespace::Vars,
                Spanned { span: var.span, value: ident },
                InfoV::Var { ty },
            ),
            VarName::Reg { .. } => st.say(NameDiag::BadMention { span: var.span }),
        }
    }
}

/// The state behind the first `n` constants of an item.
pub open spec fn scope_consts(
    st: NameSt,
    ty: VarType,
    vars: Seq<Sp<(Sp<Var>, Sp<Expr>)>>,
    n: nat,
) -> NameSt
    decreases n,
{
    if n == 0 {
        st
    } else {
        let st = scope_consts(st, ty, vars, (n - 1) as nat);
        let (var, _) = vars[n - 1].value;
        match var.value.name {
            VarName::Normal { ident, .. } => st.define(
                Namespace::Vars,
                Spanned { span: var.span, value: ident },
                InfoV::Var { ty },
            ),
            VarName::Reg { .. } => st.say(NameDiag::BadMention { span: var.span }),
        }
    }
}

/// Add what an item defines to the scope.
pub open spec fn scope_item(st: NameSt, item: Sp<Item>) -> NameSt {
    match item.value {
        Item::Func(func) => st.define(
            Namespace::Funcs,
            func.ident,
            InfoV::Func { siggy: declared_sig(func.ty_keyword, func.params@) },
        ),
        Item::ConstVar { ty_keyword, vars } => scope_consts(
            st,
            ty_keyword.value.var_ty_spec(),
            vars@,
            vars@.len(),
        ),
        _ => st,
    }
}

/// Add what the first `n` items define to the scope.
pub open spec fn scope_items(st: NameSt, items: Seq<Sp<Item>>, n: nat) -> NameSt
    decreases n,
{
    if n == 0 {
        st
    } else {
        scope_item(scope_items(st, items, (n - 1) as nat), items[n - 1])
    }
}

/// Add what the items among the first `n` statements define to the scope.
pub open spec fn scope_stmts(st: NameSt, stmts: Seq<Sp<Stmt>>, n: nat) -> NameSt
    decreases n,
{
    if n == 0 {
        st
    } else {
        let st = scope_stmts(st, stmts, (n - 1) as nat);
        match stmts[n - 1].value.kind {
            StmtKind::Item(item) => scope_item(st, *item),
            _ => st,
        }
    }
}

/// Add the first `n` parameters of a function to the scope.
pub open spec fn scope_params(st: NameSt, params: Seq<Sp<FuncParam>>, n: nat) -> NameSt
    decreases n,
{
    if n == 0 {
        st
    } else {
        let st = scope_params(st, params, (n - 1) as nat);
        match params[n - 1].value.ident {
            Some(ident) => st.define(
                Namespace::Vars,
                ident,
                InfoV::Var { ty: params[n - 1].value.ty_keyword.value.var_ty_spec() },
            ),
            None => st,
        }
    }
}

pub open spec fn res_stmt(cx: DefTables, st: NameSt, stmt: Sp<Stmt>) -> NameSt
    decreases stmt, 0nat,
{
    match stmt.value.kind {
        StmtKind::Declaration { ty_keyword, vars } => res_decls(
            cx,
            st,
            ty_keyword.value.var_ty_spec(),
            vars@,
            vars@.len(),
        ),
        StmtKind::Item(item) => res_item(cx, st, *item),
        StmtKind::CondJump { cond, .. } => res_expr(cx, st, None, cond),
        StmtKind::Return { value, .. } => res_opt_expr(cx, st, value),
        StmtKind::CondChain(chain) => {
            let st = res_cond_blocks(cx, st, chain.cond_blocks@, chain.cond_blocks@.len());
            match chain.else_block {
                Some(block) => res_block(cx, st, block),
                None => st,
            }
        },
        StmtKind::Loop { block, .. } => res_block(cx, st, block),
        StmtKind::While { do_keyword, cond, block, .. } => if do_keyword is Some {
            let st = res_expr(cx, st, None, cond);
            res_block(cx, st, block)
        } else {
            let st = res_block(cx, st, block);
            res_expr(cx, st, None, cond)
        },
        StmtKind::Times { clobber, count, block, .. } => {
            let st = match clobber {
                Some(var) => res_var(cx, st, None, var),
                None => st,
            };
            let st = res_expr(cx, st, None, count);
            res_block(cx, st, block)
        },
        StmtKind::Expr(e) => res_expr(cx, st, None, e),
        StmtKind::Block(block) => res_block(cx, st, block),
        StmtKind::Assignment { var, value, .. } => {
            let st = res_var(cx, st, None, var);
            res_expr(cx, st, None, value)
        },
        StmtKind::CallSub { args, .. } => res_exprs(cx, st, args@, args@.len()),
        _ => st,
    }
}

/// The state behind the first `n` statements.
pub open spec fn res_stmts(cx: DefTables, st: NameSt, stmts: Seq<Sp<Stmt>>, n: nat) -> NameSt
    decreases stmts, n,
{
    if n == 0 || n > stmts.len() {
        st
    } else {
        res_stmt(cx, res_stmts(cx, st, stmts, (n - 1) as nat), stmts[n - 1])
    }
}

/// The state behind the first `n` conditional blocks.
pub open spec fn res_cond_blocks(cx: DefTables, st: NameSt, blocks: Seq<CondBlock>, n: nat) -> NameSt
    decreases blocks, n,
{
    if n == 0 || n > blocks.len() {
        st
    } else {
        let st = res_cond_blocks(cx, st, blocks, (n - 1) as nat);
        let st = res_expr(cx, st, None, blocks[n - 1].cond);
        res_block(cx, st, blocks[n - 1].block)
    }
}

/// The ribs of a block, with the items that it defines.
pub open spec fn enter_block(st: NameSt, stmts: Seq<Sp<Stmt>>) -> NameSt {
    let st = st.enter(Namespace::Funcs, RibKind::Items).enter(Namespace::Vars, RibKind::Items);
    scope_stmts(st, stmts, stmts.len()).enter(Namespace::Vars, RibKind::Locals)
}

pub open spec fn leave_block(st: NameSt) -> NameSt {
    st.leave(Namespace::Vars).leave(Namespace::Vars).leave(Namespace::Funcs)
}

pub open spec fn res_block(cx: DefTables, st: NameSt, block: Block) -> NameSt
    decreases block, 0nat,
{
    leave_block(res_stmts(cx, enter_block(st, block.0@), block.0@, block.0@.len()))
}

/// The ribs of a function, with its parameters.
pub open spec fn enter_func(st: NameSt, params: Seq<Sp<FuncParam>>) -> NameSt {
    let st = st.enter(
        Namespace::Vars,
        RibKind::LocalBarrier { of_what: BarrierKind::Function },
    ).enter(Namespace::Vars, RibKind::Params);
    scope_params(st, params, params.len())
}

/// The state behind the values of the first `n` constants.
pub open spec fn res_consts(
    cx: DefTables,
    st: NameSt,
    vars: Seq<Sp<(Sp<Var>, Sp<Expr>)>>,
    n: nat,
) -> NameSt
    decreases n,
{
    if n == 0 {
        st
    } else {
        res_expr(cx, res_consts(cx, st, vars, (n - 1) as nat), None, vars[n - 1].value.1)
    }
}

pub open spec fn res_item(cx: DefTables, st: NameSt, item: Sp<Item>) -> NameSt
    decreases item, 0nat,
{
    match item.value {
        Item::Func(func) => match func.code {
            Some(code) => res_block(cx, enter_func(st, func.params@), code).leave(
                Namespace::Vars,
            ).leave(Namespace::Vars),
            None => st,
        },
        // we don't want to resolve the declaration idents, only the expressions
        Item::ConstVar { vars, .. } => res_consts(
            cx,
            st.enter(Namespace::Vars, RibKind::LocalBarrier { of_what: BarrierKind::Const }),
            vars@,
            vars@.len(),
        ).leave(Namespace::Vars),
        Item::AnmScript { code, .. } => res_block(cx, st, code),
        Item::Timeline { code, .. } => res_block(cx, st, code),
        Item::Meta { fields, .. } => res_fields(
            cx,
            st,
            fields.value.0@,
            fields.value.0@.len(),
        ),
    }
}

pub open spec fn res_items(cx: DefTables, st: NameSt, items: Seq<Sp<Item>>, n: nat) -> NameSt
    decreases n,
{
    if n == 0 {
        st
    } else {
        res_item(cx, res_items(cx, st, items, (n - 1) as nat), items[n - 1])
    }
}

pub open spec fn res_meta(cx: DefTables, st: NameSt, meta: Sp<Meta>) -> NameSt
    decreases meta, 0nat,
{
    match meta.value {
        Meta::Scalar(e) => res_expr(cx, st, None, e),
        Meta::Array(items) => res_metas(cx, st, items@, items@.len()),
        Meta::Object(fields) => res_fields(cx, st, fields.value.0@, fields.value.0@.len()),
        Meta::Variant { fields, .. } => res_fields(
            cx,
            st,
            fields.value.0@,
            fields.value.0@.len(),
        ),
    }
}

pub open spec fn res_metas(cx: DefTables, st: NameSt, items: Seq<Sp<Meta>>, n: nat) -> NameSt
    decreases items, n,
{
    if n == 0 || n > items.len() {
        st
    } else {
        res_meta(cx, res_metas(cx, st, items, (n - 1) as nat), items[n - 1])
    }
}

pub open spec fn res_fields(cx: DefTables, st: NameSt, fields: Seq<(Sp<Ident>, Sp<Meta>)>, n: nat) -> NameSt
    decreases fields, n,
{
    if n == 0 || n > fields.len() {
        st
    } else {
        res_meta(cx, res_fields(cx, st, fields, (n - 1) as nat), fields[n - 1].1)
    }
}

/// The state behind a whole file.  Its items are usable anywhere in it.
pub open spec fn res_file(cx: DefTables, st: NameSt, items: Seq<Sp<Item>>) -> NameSt {
    let st = st.enter(Namespace::Vars, RibKind::Items).enter(Namespace::Funcs, RibKind::Items);
    let st = scope_items(st, items, items.len());
    res_items(cx, st, items, items.len()).leave(Namespace::Funcs).leave(Namespace::Vars)
}

// =============================================================================
// What becomes of the ribs

/// Whether there is a rib in each namespace.
pub open spec fn rooted(ribs: StacksV) -> bool {
    ribs.vars.len() > 0 && ribs.funcs.len() > 0
}

/// Whether stacks differ in nothing but the names in their top ribs.
pub open spec fn same_but_top(a: StacksV, b: StacksV) -> bool {
    &&& a.vars.len() == b.vars.len()
    &&& a.funcs.len() == b.funcs.len()
    &&& a.vars.drop_last() == b.vars.drop_last()
    &&& a.funcs.drop_last() == b.funcs.drop_last()
    &&& a.vars.last().kind == b.vars.last().kind
    &&& a.funcs.last().kind == b.funcs.last().kind
}

proof fn lemma_define_ribs(st: NameSt, ns: Namespace, ident: Sp<ResIdent>, info: InfoV)
    requires
        rooted(st.ribs),
    ensures
        rooted(st.define(ns, ident, info).ribs),
        same_but_top(st.ribs, st.define(ns, ident, info).ribs),
        ns is Vars ==> st.define(ns, ident, info).ribs.funcs == st.ribs.funcs,
{
    let after = st.define(ns, ident, info).ribs;
    if st.can_define(ident.value) {
        let before = st.ribs.of(ns);
        assert(after.of(ns).drop_last() =~= before.drop_last());
    }
}

proof fn lemma_expr_ribs(cx: DefTables, st: NameSt, color: ColorV, e: Sp<Expr>)
    ensures
        res_expr(cx, st, color, e).ribs == st.ribs,
    decreases e, 0nat,
{
    match e.value {
        Expr::Ternary { cond, left, right, .. } => {
            lemma_expr_ribs(cx, st, color, *cond);
            let st = res_expr(cx, st, color, *cond);
            lemma_expr_ribs(cx, st, color, *left);
            let st = res_expr(cx, st, color, *left);
            lemma_expr_ribs(cx, st, color, *right);
        },
        Expr::BinOp(a, _, b) => {
            lemma_expr_ribs(cx, st, color, *a);
            let st = res_expr(cx, st, color, *a);
            lemma_expr_ribs(cx, st, color, *b);
        },
        Expr::UnOp(_, x) => lemma_expr_ribs(cx, st, color, *x),
        Expr::DiffSwitch(cases) => lemma_cases_ribs(cx, st, color, cases@, cases@.len()),
        Expr::Call(call) => {
            lemma_call_ribs(cx, st, color, call);
            assert(res_expr(cx, st, color, e) == res_call(cx, st, color, call));
        },
        _ => {},
    }
}

proof fn lemma_cases_ribs(
    cx: DefTables,
    st: NameSt,
    color: ColorV,
    cases: Seq<Option<Sp<Expr>>>,
    n: nat,
)
    ensures
        res_cases(cx, st, color, cases, n).ribs == st.ribs,
    decreases cases, n,
{
    if n > 0 && n <= cases.len() {
        lemma_cases_ribs(cx, st, color, cases, (n - 1) as nat);
        let st = res_cases(cx, st, color, cases, (n - 1) as nat);
        if let Some(case) = cases[n - 1] {
            lemma_expr_ribs(cx, st, color, case);
        }
    }
}

proof fn lemma_call_ribs(cx: DefTables, st: NameSt, color: ColorV, call: ExprCall)
    ensures
        res_call(cx, st, color, call).ribs == st.ribs,
    decreases call, 0nat,
{
    lemma_pseudos_ribs(cx, st, color, call.pseudos@, call.pseudos@.len());
    let st = res_pseudos(cx, st, color, call.pseudos@, call.pseudos@.len());
    let (found, st) = res_callable(st, call.name);
    let siggy = if found {
        st.signature(cx, call.name.value)
    } else {
        None
    };
    lemma_args_ribs(cx, st, color, colors_of(siggy), call.args@, call.args@.len());
}

proof fn lemma_pseudos_ribs(
    cx: DefTables,
    st: NameSt,
    color: ColorV,
    pseudos: Seq<Sp<PseudoArg>>,
    n: nat,
)
    ensures
        res_pseudos(cx, st, color, pseudos, n).ribs == st.ribs,
    decreases pseudos, n,
{
    if n > 0 && n <= pseudos.len() {
        lemma_pseudos_ribs(cx, st, color, pseudos, (n - 1) as nat);
        let st = res_pseudos(cx, st, color, pseudos, (n - 1) as nat);
        lemma_expr_ribs(cx, st, color, pseudos[n - 1].value.value);
    }
}

proof fn lemma_args_ribs(
    cx: DefTables,
    st: NameSt,
    color: ColorV,
    params: Option<Seq<ColorV>>,
    args: Seq<Sp<Expr>>,
    n: nat,
)
    ensures
        res_args(cx, st, color, params, args, n).ribs == st.ribs,
    decreases args, n,
{
    if n > 0 && n <= args.len() {
        lemma_args_ribs(cx, st, color, params, args, (n - 1) as nat);
        let st = res_args(cx, st, color, params, args, (n - 1) as nat);
        match params {
            None => lemma_expr_ribs(cx, st, color, args[n - 1]),
            Some(colors) => {
                if n <= colors.len() {
                    lemma_expr_ribs(cx, st, colors[n - 1], args[n - 1]);
                }
            },
        }
    }
}

proof fn lemma_exprs_ribs(cx: DefTables, st: NameSt, es: Seq<Sp<Expr>>, n: nat)
    ensures
        res_exprs(cx, st, es, n).ribs == st.ribs,
    decreases n,
{
    if n > 0 && n <= es.len() {
        lemma_exprs_ribs(cx, st, es, (n - 1) as nat);
        lemma_expr_ribs(cx, res_exprs(cx, st, es, (n - 1) as nat), None, es[n - 1]);
    }
}

proof fn lemma_consts_ribs(cx: DefTables, st: NameSt, vars: Seq<Sp<(Sp<Var>, Sp<Expr>)>>, n: nat)
    ensures
        res_consts(cx, st, vars, n).ribs == st.ribs,
    decreases n,
{
    if n > 0 {
        lemma_consts_ribs(cx, st, vars, (n - 1) as nat);
        lemma_expr_ribs(cx, res_consts(cx, st, vars, (n - 1) as nat), None, vars[n - 1].value.1);
    }
}

pub proof fn lemma_decls_ribs(
    cx: DefTables,
    st: NameSt,
    ty: VarType,
    vars: Seq<Sp<(Sp<Var>, Option<Sp<Expr>>)>>,
    n: nat,
)
    requires
        rooted(st.ribs),
    ensures
        rooted(res_decls(cx, st, ty, vars, n).ribs),
        same_but_top(st.ribs, res_decls(cx, st, ty, vars, n).ribs),
        res_decls(cx, st, ty, vars, n).ribs.funcs == st.ribs.funcs,
    decreases n,
{
    if n > 0 {
        lemma_decls_ribs(cx, st, ty, vars, (n - 1) as nat);
        let st = res_decls(cx, st, ty, vars, (n - 1) as nat);
        let (var, value) = vars[n - 1].value;
        if let VarName::Normal { ident, .. } = var.value.name {
            if let Some(e) = value {
                lemma_expr_ribs(cx, st, None, e);
            }
            lemma_define_ribs(
                res_opt_expr(cx, st, value),
                Namespace::Vars,
                Spanned { span: var.span, value: ident },
                InfoV::Var { ty },
            );
        }
    }
}

proof fn lemma_scope_consts_ribs(
    st: NameSt,
    ty: VarType,
    vars: Seq<Sp<(Sp<Var>, Sp<Expr>)>>,
    n: nat,
)
    requires
        rooted(st.ribs),
    ensures
        rooted(scope_consts(st, ty, vars, n).ribs),
        same_but_top(st.ribs, scope_consts(st, ty, vars, n).ribs),
    decreases n,
{
    if n > 0 {
        lemma_scope_consts_ribs(st, ty, vars, (n - 1) as nat);
        let st = scope_consts(st, ty, vars, (n - 1) as nat);
        let (var, _) = vars[n - 1].value;
        if let VarName::Normal { ident, .. } = var.value.name {
            lemma_define_ribs(
                st,
                Namespace::Vars,
                Spanned { span: var.span, value: ident },
                InfoV::Var { ty },
            );
        }
    }
}

proof fn lemma_scope_item_ribs(st: NameSt, item: Sp<Item>)
    requires
        rooted(st.ribs),
    ensures
        rooted(scope_item(st, item).ribs),
        same_but_top(st.ribs, scope_item(st, item).ribs),
{
    match item.value {
        Item::Func(func) => lemma_define_ribs(
            st,
            Namespace::Funcs,
            func.ident,
            InfoV::Func { siggy: declared_sig(func.ty_keyword, func.params@) },
        ),
        Item::ConstVar { ty_keyword, vars } => lemma_scope_consts_ribs(
            st,
            ty_keyword.value.var_ty_spec(),
            vars@,
            vars@.len(),
        ),
        _ => {},
    }
}

proof fn lemma_scope_items_ribs(st: NameSt, items: Seq<Sp<Item>>, n: nat)
    requires
        rooted(st.ribs),
    ensures
        rooted(scope_items(st, items, n).ribs),
        same_but_top(st.ribs, scope_items(st, items, n).ribs),
    decreases n,
{
    if n > 0 {
        lemma_scope_items_ribs(st, items, (n - 1) as nat);
        lemma_scope_item_ribs(scope_items(st, items, (n - 1) as nat), items[n - 1]);
    }
}

proof fn lemma_scope_stmts_ribs(st: NameSt, stmts: Seq<Sp<Stmt>>, n: nat)
    requires
        rooted(st.ribs),
    ensures
        rooted(scope_stmts(st, stmts, n).ribs),
        same_but_top(st.ribs, scope_stmts(st, stmts, n).ribs),
    decreases n,
{
    if n > 0 {
        lemma_scope_stmts_ribs(st, stmts, (n - 1) as nat);
        if let StmtKind::Item(item) = stmts[n - 1].value.kind {
            lemma_scope_item_ribs(scope_stmts(st, stmts, (n - 1) as nat), *item);
        }
    }
}

proof fn lemma_scope_params_ribs(st: NameSt, params: Seq<Sp<FuncParam>>, n: nat)
    requires
        rooted(st.ribs),
    ensures
        rooted(scope_params(st, params, n).ribs),
        same_but_top(st.ribs, scope_params(st, params, n).ribs),
        scope_params(st, params, n).ribs.funcs == st.ribs.funcs,
    decreases n,
{
    if n > 0 {
        lemma_scope_params_ribs(st, params, (n - 1) as nat);
        if let Some(ident) = params[n - 1].value.ident {
            lemma_define_ribs(
                scope_params(st, params, (n - 1) as nat),
                Namespace::Vars,
                ident,
                InfoV::Var { ty: params[n - 1].value.ty_keyword.value.var_ty_spec() },
            );
        }
    }
}

/// Whether the top ribs are those of a block with locals.
pub open spec fn in_block(outer: StacksV, ribs: StacksV) -> bool {
    &&& ribs.vars.len() == outer.vars.len() + 2
    &&& ribs.funcs.len() == outer.funcs.len() + 1
    &&& ribs.vars.drop_last().drop_last() == outer.vars
    &&& ribs.funcs.drop_last() == outer.funcs
    &&& ribs.vars.last().kind == RibKind::Locals
    &&& ribs.vars.drop_last().last().kind == RibKind::Items
    &&& ribs.funcs.last().kind == RibKind::Items
}

proof fn lemma_enter_block(st: NameSt, stmts: Seq<Sp<Stmt>>)
    ensures
        in_block(st.ribs, enter_block(st, stmts).ribs),
{
    let inner = st.enter(Namespace::Funcs, RibKind::Items).enter(Namespace::Vars, RibKind::Items);
    assert(inner.ribs.vars.drop_last() =~= st.ribs.vars);
    assert(inner.ribs.funcs.drop_last() =~= st.ribs.funcs);
    lemma_scope_stmts_ribs(inner, stmts, stmts.len());
    let scoped = scope_stmts(inner, stmts, stmts.len());
    let after = scoped.enter(Namespace::Vars, RibKind::Locals);
    assert(after.ribs.vars.drop_last() =~= scoped.ribs.vars);
}

proof fn lemma_stmts_ribs(cx: DefTables, st: NameSt, stmts: Seq<Sp<Stmt>>, n: nat)
    requires
        rooted(st.ribs),
    ensures
        rooted(res_stmts(cx, st, stmts, n).ribs),
        same_but_top(st.ribs, res_stmts(cx, st, stmts, n).ribs),
        res_stmts(cx, st, stmts, n).ribs.funcs == st.ribs.funcs,
    decreases stmts, n,
{
    if n > 0 && n <= stmts.len() {
        lemma_stmts_ribs(cx, st, stmts, (n - 1) as nat);
        lemma_stmt_ribs(cx, res_stmts(cx, st, stmts, (n - 1) as nat), stmts[n - 1]);
    }
}

pub proof fn lemma_stmt_ribs(cx: DefTables, st: NameSt, stmt: Sp<Stmt>)
    requires
        rooted(st.ribs),
    ensures
        rooted(res_stmt(cx, st, stmt).ribs),
        same_but_top(st.ribs, res_stmt(cx, st, stmt).ribs),
        res_stmt(cx, st, stmt).ribs.funcs == st.ribs.funcs,
    decreases stmt, 0nat,
{
    match stmt.value.kind {
        StmtKind::Declaration { ty_keyword, vars } => lemma_decls_ribs(
            cx,
            st,
            ty_keyword.value.var_ty_spec(),
            vars@,
            vars@.len(),
        ),
        StmtKind::Item(item) => law_item_keeps_scope(cx, st, *item),
        StmtKind::CondJump { cond, .. } => lemma_expr_ribs(cx, st, None, cond),
        StmtKind::Return { value, .. } => {
            if let Some(e) = value {
                lemma_expr_ribs(cx, st, None, e);
            }
        },
        StmtKind::CondChain(chain) => {
            lemma_blocks_ribs(cx, st, chain.cond_blocks@, chain.cond_blocks@.len());
            let st = res_cond_blocks(cx, st, chain.cond_blocks@, chain.cond_blocks@.len());
            if let Some(block) = chain.else_block {
                law_block_keeps_scope(cx, st, block);
            }
        },
        StmtKind::Loop { block, .. } => law_block_keeps_scope(cx, st, block),
        StmtKind::While { do_keyword, cond, block, .. } => {
            if do_keyword is Some {
                lemma_expr_ribs(cx, st, None, cond);
                let st = res_expr(cx, st, None, cond);
                law_block_keeps_scope(cx, st, block);
            } else {
                law_block_keeps_scope(cx, st, block);
                let st = res_block(cx, st, block);
                lemma_expr_ribs(cx, st, None, cond);
            }
        },
        StmtKind::Times { clobber, count, block, .. } => {
            let st = match clobber {
                Some(var) => res_var(cx, st, None, var),
                None => st,
            };
            lemma_expr_ribs(cx, st, None, count);
            let st = res_expr(cx, st, None, count);
            law_block_keeps_scope(cx, st, block);
        },
        StmtKind::Expr(e) => lemma_expr_ribs(cx, st, None, e),
        StmtKind::Block(block) => law_block_keeps_scope(cx, st, block),
        StmtKind::Assignment { var, value, .. } => {
            let st = res_var(cx, st, None, var);
            lemma_expr_ribs(cx, st, None, value);
        },
        StmtKind::CallSub { args, .. } => lemma_exprs_ribs(cx, st, args@, args@.len()),
        _ => {},
    }
}

pub proof fn lemma_blocks_ribs(cx: DefTables, st: NameSt, blocks: Seq<CondBlock>, n: nat)
    requires
        rooted(st.ribs),
    ensures
        res_cond_blocks(cx, st, blocks, n).ribs == st.ribs,
    decreases blocks, n,
{
    if n > 0 && n <= blocks.len() {
        lemma_blocks_ribs(cx, st, blocks, (n - 1) as nat);
        let st = res_cond_blocks(cx, st, blocks, (n - 1) as nat);
        lemma_expr_ribs(cx, st, None, blocks[n - 1].cond);
        let st = res_expr(cx, st, None, blocks[n - 1].cond);
        law_block_keeps_scope(cx, st, blocks[n - 1].block);
    }
}

/// Behind a block, the same names are visible as before it.
pub proof fn law_block_keeps_scope(cx: DefTables, st: NameSt, block: Block)
    requires
        rooted(st.ribs),
    ensures
        res_block(cx, st, block).ribs == st.ribs,
    decreases block, 0nat,
{
    let inner = enter_block(st, block.0@);
    lemma_enter_block(st, block.0@);
    lemma_stmts_ribs(cx, inner, block.0@, block.0@.len());
    let after = res_stmts(cx, inner, block.0@, block.0@.len());
    assert(leave_block(after).ribs =~= st.ribs);
}

/// Behind an item, the same names are visible as before it.
pub proof fn law_item_keeps_scope(cx: DefTables, st: NameSt, item: Sp<Item>)
    requires
        rooted(st.ribs),
    ensures
        res_item(cx, st, item).ribs == st.ribs,
    decreases item, 0nat,
{
    match item.value {
        Item::Func(func) => {
            if let Some(code) = func.code {
                lemma_enter_func(st, func.params@);
                let inner = enter_func(st, func.params@);
                law_block_keeps_scope(cx, inner, code);
                let after = res_block(cx, inner, code);
                assert(after.leave(Namespace::Vars).leave(Namespace::Vars).ribs =~= st.ribs);
            }
        },
        Item::ConstVar { vars, .. } => {
            let inner = st.enter(
                Namespace::Vars,
                RibKind::LocalBarrier { of_what: BarrierKind::Const },
            );
            lemma_consts_ribs(cx, inner, vars@, vars@.len());
            let after = res_consts(cx, inner, vars@, vars@.len());
            assert(after.leave(Namespace::Vars).ribs =~= st.ribs);
        },
        Item::AnmScript { code, .. } => law_block_keeps_scope(cx, st, code),
        Item::Timeline { code, .. } => law_block_keeps_scope(cx, st, code),
        Item::Meta { fields, .. } => lemma_fields_ribs(
            cx,
            st,
            fields.value.0@,
            fields.value.0@.len(),
        ),
    }
}

proof fn lemma_enter_func(st: NameSt, params: Seq<Sp<FuncParam>>)
    requires
        rooted(st.ribs),
    ensures
        ({
            let ribs = enter_func(st, params).ribs;
            &&& rooted(ribs)
            &&& ribs.funcs == st.ribs.funcs
            &&& ribs.vars.len() == st.ribs.vars.len() + 2
            &&& ribs.vars.drop_last().drop_last() == st.ribs.vars
            &&& ribs.vars.last().kind == RibKind::Params
            &&& ribs.vars.drop_last().last().kind == (RibKind::LocalBarrier {
                of_what: BarrierKind::Function,
            })
        }),
{
    let barrier = st.enter(
        Namespace::Vars,
        RibKind::LocalBarrier { of_what: BarrierKind::Function },
    );
    let inner = barrier.enter(Namespace::Vars, RibKind::Params);
    assert(barrier.ribs.vars.drop_last() =~= st.ribs.vars);
    assert(inner.ribs.vars.drop_last() =~= barrier.ribs.vars);
    lemma_scope_params_ribs(inner, params, params.len());
}

proof fn lemma_meta_ribs(cx: DefTables, st: NameSt, meta: Sp<Meta>)
    ensures
        res_meta(cx, st, meta).ribs == st.ribs,
    decreases meta, 0nat,
{
    match meta.value {
        Meta::Scalar(e) => lemma_expr_ribs(cx, st, None, e),
        Meta::Array(items) => lemma_metas_ribs(cx, st, items@, items@.len()),
        Meta::Object(fields) => lemma_fields_ribs(
            cx,
            st,
            fields.value.0@,
            fields.value.0@.len(),
        ),
        Meta::Variant { fields, .. } => lemma_fields_ribs(
            cx,
            st,
            fields.value.0@,
            fields.value.0@.len(),
        ),
    }
}

proof fn lemma_metas_ribs(cx: DefTables, st: NameSt, items: Seq<Sp<Meta>>, n: nat)
    ensures
        res_metas(cx, st, items, n).ribs == st.ribs,
    decreases items, n,
{
    if n > 0 && n <= items.len() {
        lemma_metas_ribs(cx, st, items, (n - 1) as nat);
        lemma_meta_ribs(cx, res_metas(cx, st, items, (n - 1) as nat), items[n - 1]);
    }
}

proof fn lemma_fields_ribs(cx: DefTables, st: NameSt, fields: Seq<(Sp<Ident>, Sp<Meta>)>, n: nat)
    ensures
        res_fields(cx, st, fields, n).ribs == st.ribs,
    decreases fields, n,
{
    if n > 0 && n <= fields.len() {
        lemma_fields_ribs(cx, st, fields, (n - 1) as nat);
        lemma_meta_ribs(cx, res_fields(cx, st, fields, (n - 1) as nat), fields[n - 1].1);
    }
}

// =============================================================================

/// Visitor that performs name resolution.
pub struct Visitor {
    pub rib_stacks: RibStacks,
    pub diags: Vec<NameDiag<Ident>>,
    pub ctx: CompilerContext,
}

/// An enum whose constants are expected, by view.
pub open spec fn color_of(color: Option<&Ident>) -> ColorV {
    match color {
        Some(name) => Some(name@),
        None => None,
    }
}

/// The colors of parameters, by view.
pub open spec fn param_colors_view(colors: Option<Vec<Option<Ident>>>) -> Option<Seq<ColorV>> {
    match colors {
        Some(v) => Some(v@.map_values(|c: Option<Ident>| opt_view(c))),
        None => None,
    }
}

pub open spec fn opt_view(c: Option<Ident>) -> ColorV {
    match c {
        Some(name) => Some(name@),
        None => None,
    }
}

pub open spec fn is_error(d: NameDiagV) -> bool {
    !(d is SuspiciousEnumConst)
}

pub open spec fn has_error(d: Seq<NameDiagV>) -> bool {
    exists|i: int| 0 <= i < d.len() && is_error(#[trigger] d[i])
}

fn copy_colors(siggy: &Signature) -> (r: Vec<Option<Ident>>)
    ensures
        param_colors_view(Some(r)) == colors_of(Some(siggy@)),
{
    let mut out: Vec<Option<Ident>> = Vec::new();
    let mut i: usize = 0;
    while i < siggy.params.len()
        invariant
            i <= siggy.params@.len(),
            out@.len() == i,
            forall|j: int|
                0 <= j < i ==> opt_view(#[trigger] out@[j]) == param_view(siggy.params@[j]).color,
        decreases siggy.params@.len() - i,
    {
        let color = match &siggy.params[i].ty_color {
            Some(TypeColor::Enum(name)) => Some(name.clone()),
            None => None,
        };
        out.push(color);
        i = i + 1;
    }
    proof {
        assert(out@.map_values(|c: Option<Ident>| opt_view(c)) =~= siggy@.params.map_values(
            |p: ParamV| p.color,
        ));
    }
    out
}

impl Visitor {
    pub open spec fn st(self) -> NameSt {
        NameSt {
            ribs: self.rib_stacks@,
            map: self.ctx.resolutions.map@,
            infos: infos_view(self.ctx.defs.infos@),
            diags: diags_view(self.diags@),
        }
    }

    pub open spec fn cx(self) -> DefTables {
        self.ctx.defs.tables
    }

    /// Start with the names that are known before a script is read.
    pub fn new(ctx: CompilerContext, initial_ribs: Vec<Rib>) -> (r: Self)
        ensures
            r.cx() == ctx.defs.tables,
            r.st() == (NameSt {
                ribs: stacks_of(ribs_view(initial_ribs@)),
                map: ctx.resolutions.map@,
                infos: infos_view(ctx.defs.infos@),
                diags: seq![],
            }),
            rooted(r.st().ribs),
    {
        let r = Visitor { rib_stacks: RibStacks::from_ribs(initial_ribs), diags: Vec::new(), ctx };
        proof {
            lemma_stacks_rooted(ribs_view(initial_ribs@));
            assert(r.st().diags =~= seq![]);
        }
        r
    }

    /// Give the context back, with the warnings if there is no error, and all diagnostics if there
    /// is.
    pub fn finish(self) -> (r: (CompilerContext, Result<Vec<NameDiag<Ident>>, Vec<NameDiag<Ident>>>))
        ensures
            r.0 == self.ctx,
            match r.1 {
                Ok(d) => d == self.diags && !has_error(self.st().diags),
                Err(d) => d == self.diags && has_error(self.st().diags),
            },
    {
        let mut i: usize = 0;
        let ghost views = self.st().diags;
        while i < self.diags.len()
            invariant
                i <= self.diags@.len(),
                views == diags_view(self.diags@),
                views == self.st().diags,
                forall|j: int| 0 <= j < i ==> !is_error(#[trigger] views[j]),
            decreases self.diags@.len() - i,
        {
            assert(views[i as int] == diag_view(self.diags@[i as int]));
            match &self.diags[i] {
                NameDiag::SuspiciousEnumConst { .. } => {},
                _ => {
                    assert(is_error(views[i as int]));
                    return (self.ctx, Err(self.diags));
                },
            }
            i = i + 1;
        }
        (self.ctx, Ok(self.diags))
    }

    fn say(&mut self, d: NameDiag<Ident>)
        ensures
            final(self).cx() == old(self).cx(),
            final(self).st() == old(self).st().say(diag_view(d)),
    {
        self.diags.push(d);
        assert(self.st() =~= old(self).st().say(diag_view(d)));
    }

    fn record(&mut self, ident: &ResIdent, def: DefId, span: Span)
        ensures
            final(self).cx() == old(self).cx(),
            final(self).st() == old(self).st().record(*ident, def, span),
    {
        match ident.res {
            Some(res) => {
                if 0 < res.0 && (res.0 as usize) < self.ctx.resolutions.map.len() {
                    if self.ctx.resolutions.try_get_def(ident).is_none() {
                        self.ctx.resolutions.record_resolution(ident, def);
                        return;
                    }
                }
            },
            None => {},
        }
        self.say(NameDiag::BadMention { span });
    }

    /// Add a name to the top rib in a namespace's stack, so that future names can resolve to it.
    ///
    /// If the name collides with another thing in the same rib, a redefinition error is generated.
    fn add_to_rib_with_redefinition_check(
        &mut self,
        ns: Namespace,
        expected_kind: RibKind,
        ident: Sp<Ident>,
        def_id: DefId,
    )
        requires
            rooted(old(self).st().ribs),
            old(self).st().ribs.of(ns).last().kind == expected_kind,
        ensures
            final(self).cx() == old(self).cx(),
            final(self).st() == old(self).st().add_to_rib(
                ns,
                ident.value@,
                ident.span,
                def_id,
            ),
    {
        let name = ident.value.clone();
        let span = ident.span;
        match self.rib_stacks.top_rib(ns, expected_kind).insert(ident, def_id) {
            Ok(_) => {},
            Err(previous) => {
                self.say(
                    NameDiag::Redefinition {
                        ns,
                        kind: expected_kind,
                        name,
                        span,
                        original: previous.def_ident_span,
                    },
                );
            },
        }
    }

    /// Make a definition of a name.
    fn define(&mut self, ns: Namespace, expected_kind: RibKind, ident: &Sp<ResIdent>, info: DefInfo)
        requires
            rooted(old(self).st().ribs),
            old(self).st().ribs.of(ns).last().kind == expected_kind,
        ensures
            final(self).cx() == old(self).cx(),
            final(self).st() == old(self).st().define(ns, *ident, info@),
    {
        let mut can_define = false;
        match ident.value.res {
            Some(res) => {
                if 0 < res.0 && (res.0 as usize) < self.ctx.resolutions.map.len() {
                    can_define = match self.ctx.resolutions.try_get_def(&ident.value) {
                        None => true,
                        Some(def) => def == DefId(res.0),
                    };
                }
            },
            None => {},
        }
        if !can_define {
            self.say(NameDiag::BadMention { span: ident.span });
            return;
        }
        let def = self.ctx.resolutions.record_self_resolution(&ident.value);
        let ghost infos = self.ctx.defs.infos@;
        self.ctx.defs.infos.insert(def.0, info);
        proof {
            assert(infos_view(self.ctx.defs.infos@) =~= infos_view(infos).insert(def.0, info@));
        }
        self.add_to_rib_with_redefinition_check(
            ns,
            expected_kind,
            Spanned { span: ident.span, value: ident.value.ident.clone() },
            def,
        );
    }

    fn enter_rib(&mut self, ns: Namespace, kind: RibKind)
        ensures
            final(self).cx() == old(self).cx(),
            final(self).st() == old(self).st().enter(ns, kind),
    {
        self.rib_stacks.enter_new_rib(ns, kind);
    }

    fn leave_rib(&mut self, ns: Namespace, expected_kind: RibKind)
        requires
            old(self).st().ribs.of(ns).len() > 0,
            old(self).st().ribs.of(ns).last().kind == expected_kind,
        ensures
            final(self).cx() == old(self).cx(),
            final(self).st() == old(self).st().leave(ns),
    {
        self.rib_stacks.leave_rib(ns, expected_kind);
    }

    fn resolve_qualified_enum_const(&mut self, expr_span: Span, enum_name: &Ident, ident: &ResIdent)
        ensures
            final(self).cx() == old(self).cx(),
            final(self).st() == res_qualified(
                old(self).cx(),
                old(self).st(),
                expr_span,
                enum_name@,
                *ident,
            ),
    {
        match self.ctx.defs.tables.enum_const_def_id(enum_name, &ident.ident) {
            Some(def) => self.record(ident, def, expr_span),
            None => self.say(
                NameDiag::NoEnumConst {
                    enum_name: enum_name.clone(),
                    name: ident.ident.clone(),
                    span: expr_span,
                },
            ),
        }
    }

    // this gets called on vars that resolve to the dummy enum const ID.
    // (basically, any unqualified enum const that isn't shadowed)
    fn resolve_unqualified_enum_const(
        &mut self,
        color: Option<&Ident>,
        expr_span: Span,
        ident: &ResIdent,
    )
        ensures
            final(self).cx() == old(self).cx(),
            final(self).st() == res_unqualified(
                old(self).cx(),
                old(self).st(),
                color_of(color),
                expr_span,
                *ident,
            ),
    {
        // Does the name exist in the enum expected by type?
        if let Some(enum_name) = color {
            if let Some(def) = self.ctx.defs.tables.enum_const_def_id(enum_name, &ident.ident) {
                // Use that directly. (no concern about ambiguity)
                self.record(ident, def, expr_span);
                return;
            }
        }
        // We can still resolve this as long as it's unambiguous.
        let found: Option<(Ident, DefId)> = match self.ctx.defs.tables.unqualified_enum_const(
            &ident.ident,
        ) {
            Some(entry) => Some((entry.enum_name.clone(), entry.def_id)),
            None => None,
        };
        match found {
            Some((const_enum, def)) => {
                self.record(ident, def, expr_span);
                if let Some(expected) = color {
                    self.say(
                        NameDiag::SuspiciousEnumConst {
                            const_enum,
                            name: ident.ident.clone(),
                            expected_enum: expected.clone(),
                            span: expr_span,
                        },
                    );
                }
            },
            None => self.say(
                NameDiag::AmbiguousEnumConst { name: ident.ident.clone(), span: expr_span },
            ),
        }
    }

    fn visit_var(&mut self, color: Option<&Ident>, var: &Sp<Var>)
        ensures
            final(self).cx() == old(self).cx(),
            final(self).st() == res_var(old(self).cx(), old(self).st(), color_of(color), *var),
    {
        if let VarName::Normal { ident, language_if_reg } = &var.value.name {
            match self.rib_stacks.resolve(
                Namespace::Vars,
                var.span,
                *language_if_reg,
                &ident.ident,
            ) {
                Err(e) => self.say(NameDiag::Resolve(e)),
                Ok(def) => {
                    if def == self.ctx.defs.tables.enum_const_dummy {
                        self.resolve_unqualified_enum_const(color, var.span, ident);
                    } else {
                        self.record(ident, def, var.span);
                    }
                },
            }
        }
    }

    fn visit_callable_name(&mut self, name: &Sp<CallableName>) -> (r: bool)
        ensures
            final(self).cx() == old(self).cx(),
            (r, final(self).st()) == res_callable(old(self).st(), *name),
    {
        match &name.value {
            CallableName::Ins { .. } => true,
            CallableName::Normal { ident, language_if_ins } => {
                match self.rib_stacks.resolve(
                    Namespace::Funcs,
                    name.span,
                    *language_if_ins,
                    &ident.ident,
                ) {
                    Err(e) => {
                        self.say(NameDiag::Resolve(e));
                        false
                    },
                    Ok(def) => {
                        self.record(ident, def, name.span);
                        true
                    },
                }
            },
        }
    }

    /// The enums that the parameters of a function expect, if its signature is known.
    fn param_colors(&self, name: &CallableName) -> (r: Option<Vec<Option<Ident>>>)
        ensures
            param_colors_view(r) == colors_of(self.st().signature(self.cx(), *name)),
    {
        proof {
            if let CallableName::Normal { ident, .. } = name {
                lemma_info_view(*self, *ident);
            }
        }
        match self.ctx.func_signature_from_ast(name) {
            Ok(siggy) => Some(copy_colors(siggy)),
            // continue without type info, and let the type checker complain about the
            // missing signature later
            Err(_) => None,
        }
    }

    /// Resolve the names of an expression.
    pub fn visit_expr(&mut self, color: Option<&Ident>, expr: &Sp<Expr>)
        ensures
            final(self).cx() == old(self).cx(),
            final(self).st() == res_expr(old(self).cx(), old(self).st(), color_of(color), *expr),
        decreases *expr, 0nat,
    {
        match &expr.value {
            Expr::Ternary { cond, left, right, .. } => {
                self.visit_expr(color, &**cond);
                self.visit_expr(color, &**left);
                self.visit_expr(color, &**right);
            },
            Expr::BinOp(a, _, b) => {
                self.visit_expr(color, &**a);
                self.visit_expr(color, &**b);
            },
            Expr::UnOp(_, x) => self.visit_expr(color, &**x),
            Expr::XcrementOp { var, .. } => self.visit_var(color, var),
            Expr::Var(var) => self.visit_var(color, var),
            Expr::DiffSwitch(cases) => self.visit_cases(color, cases),
            Expr::Call(call) => self.visit_call(color, call),
            Expr::EnumConst { enum_name, ident } => self.resolve_qualified_enum_const(
                expr.span,
                &enum_name.value,
                &ident.value,
            ),
            Expr::LitInt { .. } => {},
            Expr::LitFloat { .. } => {},
            Expr::LitString(_) => {},
            Expr::LabelProperty { .. } => {},
        }
    }

    fn visit_cases(&mut self, color: Option<&Ident>, cases: &Vec<Option<Sp<Expr>>>)
        ensures
            final(self).cx() == old(self).cx(),
            final(self).st() == res_cases(
                old(self).cx(),
                old(self).st(),
                color_of(color),
                cases@,
                cases@.len(),
            ),
        decreases *cases, 0nat,
    {
        let mut i: usize = 0;
        while i < cases.len()
            invariant
                i <= cases@.len(),
                self.cx() == old(self).cx(),
                self.st() == res_cases(
                    old(self).cx(),
                    old(self).st(),
                    color_of(color),
                    cases@,
                    i as nat,
                ),
            decreases cases@.len() - i,
        {
            assert(decreases_to!(*cases => cases@[i as int]));
            if let Some(case) = &cases[i] {
                self.visit_expr(color, case);
            }
            i = i + 1;
        }
    }

    fn visit_call(&mut self, color: Option<&Ident>, call: &ExprCall)
        ensures
            final(self).cx() == old(self).cx(),
            final(self).st() == res_call(old(self).cx(), old(self).st(), color_of(color), *call),
        decreases *call, 0nat,
    {
        self.visit_pseudos(color, &call.pseudos);
        // resolve the function name now so we can get its signature
        let found = self.visit_callable_name(&call.name);
        // use the signature to get enhanced type information for function args.
        // (but don't try to access the signature if resolving the function name failed!)
        let colors = if found {
            self.param_colors(&call.name.value)
        } else {
            None
        };
        self.visit_call_args(color, &colors, &call.args);
    }

    fn visit_pseudos(&mut self, color: Option<&Ident>, pseudos: &Vec<Sp<PseudoArg>>)
        ensures
            final(self).cx() == old(self).cx(),
            final(self).st() == res_pseudos(
                old(self).cx(),
                old(self).st(),
                color_of(color),
                pseudos@,
                pseudos@.len(),
            ),
        decreases *pseudos, 0nat,
    {
        let mut i: usize = 0;
        while i < pseudos.len()
            invariant
                i <= pseudos@.len(),
                self.cx() == old(self).cx(),
                self.st() == res_pseudos(
                    old(self).cx(),
                    old(self).st(),
                    color_of(color),
                    pseudos@,
                    i as nat,
                ),
            decreases pseudos@.len() - i,
        {
            assert(decreases_to!(*pseudos => pseudos@[i as int].value.value));
            self.visit_expr(color, &pseudos[i].value.value);
            i = i + 1;
        }
    }

    fn visit_call_args(
        &mut self,
        color: Option<&Ident>,
        colors: &Option<Vec<Option<Ident>>>,
        args: &Vec<Sp<Expr>>,
    )
        ensures
            final(self).cx() == old(self).cx(),
            final(self).st() == res_args(
                old(self).cx(),
                old(self).st(),
                color_of(color),
                param_colors_view(*colors),
                args@,
                args@.len(),
            ),
        decreases *args, 0nat,
    {
        let mut i: usize = 0;
        while i < args.len()
            invariant
                i <= args@.len(),
                self.cx() == old(self).cx(),
                self.st() == res_args(
                    old(self).cx(),
                    old(self).st(),
                    color_of(color),
                    param_colors_view(*colors),
                    args@,
                    i as nat,
                ),
            decreases args@.len() - i,
        {
            assert(decreases_to!(*args => args@[i as int]));
            match colors {
                Some(colors) => {
                    if i < colors.len() {
                        let expected: Option<&Ident> = match &colors[i] {
                            Some(name) => Some(name),
                            None => None,
                        };
                        assert(color_of(expected) == opt_view(colors@[i as int]));
                        self.visit_expr(expected, &args[i]);
                    }
                },
                None => self.visit_expr(color, &args[i]),
            }
            i = i + 1;
        }
    }

    fn visit_exprs(&mut self, es: &Vec<Sp<Expr>>)
        ensures
            final(self).cx() == old(self).cx(),
            final(self).st() == res_exprs(old(self).cx(), old(self).st(), es@, es@.len()),
    {
        let mut i: usize = 0;
        while i < es.len()
            invariant
                i <= es@.len(),
                self.cx() == old(self).cx(),
                self.st() == res_exprs(old(self).cx(), old(self).st(), es@, i as nat),
            decreases es@.len() - i,
        {
            self.visit_expr(None, &es[i]);
            i = i + 1;
        }
    }

    fn visit_opt_expr(&mut self, e: &Option<Sp<Expr>>)
        ensures
            final(self).cx() == old(self).cx(),
            final(self).st() == res_opt_expr(old(self).cx(), old(self).st(), *e),
    {
        if let Some(e) = e {
            self.visit_expr(None, e);
        }
    }

    fn visit_declaration(&mut self, ty: VarType, vars: &Vec<Sp<(Sp<Var>, Option<Sp<Expr>>)>>)
        requires
            rooted(old(self).st().ribs),
            old(self).st().ribs.vars.last().kind == RibKind::Locals,
        ensures
            final(self).cx() == old(self).cx(),
            final(self).st() == res_decls(
                old(self).cx(),
                old(self).st(),
                ty,
                vars@,
                vars@.len(),
            ),
    {
        let mut i: usize = 0;
        while i < vars.len()
            invariant
                i <= vars@.len(),
                rooted(old(self).st().ribs),
                old(self).st().ribs.vars.last().kind == RibKind::Locals,
                self.cx() == old(self).cx(),
                self.st() == res_decls(old(self).cx(), old(self).st(), ty, vars@, i as nat),
            decreases vars@.len() - i,
        {
            proof {
                lemma_decls_ribs(old(self).cx(), old(self).st(), ty, vars@, i as nat);
            }
            let var = &vars[i].value.0;
            match &var.value.name {
                VarName::Normal { ident, .. } => {
                    proof {
                        if let Some(e) = vars@[i as int].value.1 {
                            lemma_expr_ribs(self.cx(), self.st(), None, e);
                        }
                    }
                    self.visit_opt_expr(&vars[i].value.1);
                    let sp_ident = Spanned { span: var.span, value: ident.clone() };
                    self.define(Namespace::Vars, RibKind::Locals, &sp_ident, DefInfo::Var { ty });
                },
                VarName::Reg { .. } => self.say(NameDiag::BadMention { span: var.span }),
            }
            i = i + 1;
        }
    }

    fn add_consts_to_scope(&mut self, ty: VarType, vars: &Vec<Sp<(Sp<Var>, Sp<Expr>)>>)
        requires
            rooted(old(self).st().ribs),
            old(self).st().ribs.vars.last().kind == RibKind::Items,
        ensures
            final(self).cx() == old(self).cx(),
            final(self).st() == scope_consts(old(self).st(), ty, vars@, vars@.len()),
    {
        let mut i: usize = 0;
        while i < vars.len()
            invariant
                i <= vars@.len(),
                rooted(old(self).st().ribs),
                old(self).st().ribs.vars.last().kind == RibKind::Items,
                self.cx() == old(self).cx(),
                self.st() == scope_consts(old(self).st(), ty, vars@, i as nat),
            decreases vars@.len() - i,
        {
            proof {
                lemma_scope_consts_ribs(old(self).st(), ty, vars@, i as nat);
            }
            let var = &vars[i].value.0;
            match &var.value.name {
                VarName::Normal { ident, .. } => {
                    let sp_ident = Spanned { span: var.span, value: ident.clone() };
                    self.define(Namespace::Vars, RibKind::Items, &sp_ident, DefInfo::Var { ty });
                },
                VarName::Reg { .. } => self.say(NameDiag::BadMention { span: var.span }),
            }
            i = i + 1;
        }
    }

    /// If this item defines something resolvable (a `const`, a function), add it to scope.
    ///
    /// This is called extremely early on items in a block, allowing items to be defined after they
    /// are used.
    fn add_item_to_scope(&mut self, item: &Sp<Item>)
        requires
            rooted(old(self).st().ribs),
            old(self).st().ribs.vars.last().kind == RibKind::Items,
            old(self).st().ribs.funcs.last().kind == RibKind::Items,
        ensures
            final(self).cx() == old(self).cx(),
            final(self).st() == scope_item(old(self).st(), *item),
    {
        match &item.value {
            Item::Func(func) => {
                let siggy = Signature::from_func_params(func.ty_keyword, &func.params);
                self.define(
                    Namespace::Funcs,
                    RibKind::Items,
                    &func.ident,
                    DefInfo::Func { siggy },
                );
            },
            Item::ConstVar { ty_keyword, vars } => {
                let ty = var_ty_of(ty_keyword.value);
                self.add_consts_to_scope(ty, vars);
            },
            Item::AnmScript { .. } => {},
            Item::Timeline { .. } => {},
            Item::Meta { .. } => {},
        }
    }

    fn add_block_items_to_scope(&mut self, stmts: &Vec<Sp<Stmt>>)
        requires
            rooted(old(self).st().ribs),
            old(self).st().ribs.vars.last().kind == RibKind::Items,
            old(self).st().ribs.funcs.last().kind == RibKind::Items,
        ensures
            final(self).cx() == old(self).cx(),
            final(self).st() == scope_stmts(old(self).st(), stmts@, stmts@.len()),
    {
        let mut i: usize = 0;
        while i < stmts.len()
            invariant
                i <= stmts@.len(),
                rooted(old(self).st().ribs),
                old(self).st().ribs.vars.last().kind == RibKind::Items,
                old(self).st().ribs.funcs.last().kind == RibKind::Items,
                self.cx() == old(self).cx(),
                self.st() == scope_stmts(old(self).st(), stmts@, i as nat),
            decreases stmts@.len() - i,
        {
            proof {
                lemma_scope_stmts_ribs(old(self).st(), stmts@, i as nat);
            }
            if let StmtKind::Item(item) = &stmts[i].value.kind {
                self.add_item_to_scope(&**item);
            }
            i = i + 1;
        }
    }

    fn add_params_to_scope(&mut self, params: &Vec<Sp<FuncParam>>)
        requires
            rooted(old(self).st().ribs),
            old(self).st().ribs.vars.last().kind == RibKind::Params,
        ensures
            final(self).cx() == old(self).cx(),
            final(self).st() == scope_params(old(self).st(), params@, params@.len()),
    {
        let mut i: usize = 0;
        while i < params.len()
            invariant
                i <= params@.len(),
                rooted(old(self).st().ribs),
                old(self).st().ribs.vars.last().kind == RibKind::Params,
                self.cx() == old(self).cx(),
                self.st() == scope_params(old(self).st(), params@, i as nat),
            decreases params@.len() - i,
        {
            proof {
                lemma_scope_params_ribs(old(self).st(), params@, i as nat);
            }
            if let Some(ident) = &params[i].value.ident {
                let ty = var_ty_of(params[i].value.ty_keyword.value);
                self.define(Namespace::Vars, RibKind::Params, ident, DefInfo::Var { ty });
            }
            i = i + 1;
        }
    }

    /// Resolve the names of a statement.
    pub fn visit_stmt(&mut self, stmt: &Sp<Stmt>)
        requires
            rooted(old(self).st().ribs),
            old(self).st().ribs.vars.last().kind == RibKind::Locals,
        ensures
            final(self).cx() == old(self).cx(),
            final(self).st() == res_stmt(old(self).cx(), old(self).st(), *stmt),
        decreases *stmt, 0nat,
    {
        let ghost cx = self.cx();
        match &stmt.value.kind {
            StmtKind::Declaration { ty_keyword, vars } => {
                let ty = var_ty_of(ty_keyword.value);
                self.visit_declaration(ty, vars);
            },
            StmtKind::Item(item) => self.visit_item(&**item),
            StmtKind::Jump(_) => {},
            StmtKind::CondJump { cond, .. } => self.visit_expr(None, cond),
            StmtKind::Return { value, .. } => self.visit_opt_expr(value),
            StmtKind::CondChain(chain) => {
                proof {
                    lemma_blocks_ribs(
                        cx,
                        self.st(),
                        chain.cond_blocks@,
                        chain.cond_blocks@.len(),
                    );
                }
                self.visit_cond_blocks(&chain.cond_blocks);
                if let Some(block) = &chain.else_block {
                    self.visit_block(block);
                }
            },
            StmtKind::Loop { block, .. } => self.visit_block(block),
            StmtKind::While { do_keyword, cond, block, .. } => {
                if do_keyword.is_some() {
                    proof {
                        lemma_expr_ribs(cx, self.st(), None, *cond);
                    }
                    self.visit_expr(None, cond);
                    self.visit_block(block);
                } else {
                    self.visit_block(block);
                    self.visit_expr(None, cond);
                }
            },
            StmtKind::Times { clobber, count, block, .. } => {
                if let Some(var) = clobber {
                    self.visit_var(None, var);
                }
                proof {
                    lemma_expr_ribs(cx, self.st(), None, *count);
                }
                self.visit_expr(None, count);
                self.visit_block(block);
            },
            StmtKind::Expr(e) => self.visit_expr(None, e),
            StmtKind::Block(block) => self.visit_block(block),
            StmtKind::Assignment { var, value, .. } => {
                self.visit_var(None, var);
                self.visit_expr(None, value);
            },
            StmtKind::CallSub { args, .. } => self.visit_exprs(args),
            StmtKind::InterruptLabel(_) => {},
            StmtKind::AbsTimeLabel(_) => {},
            StmtKind::RelTimeLabel { .. } => {},
            StmtKind::Label(_) => {},
            StmtKind::ScopeEnd(_) => {},
            StmtKind::NoInstruction => {},
        }
    }

    fn visit_stmts(&mut self, stmts: &Vec<Sp<Stmt>>)
        requires
            rooted(old(self).st().ribs),
            old(self).st().ribs.vars.last().kind == RibKind::Locals,
        ensures
            final(self).cx() == old(self).cx(),
            final(self).st() == res_stmts(
                old(self).cx(),
                old(self).st(),
                stmts@,
                stmts@.len(),
            ),
        decreases *stmts, 0nat,
    {
        let mut i: usize = 0;
        while i < stmts.len()
            invariant
                i <= stmts@.len(),
                rooted(old(self).st().ribs),
                old(self).st().ribs.vars.last().kind == RibKind::Locals,
                self.cx() == old(self).cx(),
                self.st() == res_stmts(old(self).cx(), old(self).st(), stmts@, i as nat),
            decreases stmts@.len() - i,
        {
            proof {
                lemma_stmts_ribs(old(self).cx(), old(self).st(), stmts@, i as nat);
            }
            assert(decreases_to!(*stmts => stmts@[i as int]));
            self.visit_stmt(&stmts[i]);
            i = i + 1;
        }
    }

    fn visit_cond_blocks(&mut self, blocks: &Vec<CondBlock>)
        requires
            rooted(old(self).st().ribs),
        ensures
            final(self).cx() == old(self).cx(),
            final(self).st() == res_cond_blocks(
                old(self).cx(),
                old(self).st(),
                blocks@,
                blocks@.len(),
            ),
        decreases *blocks, 0nat,
    {
        let mut i: usize = 0;
        while i < blocks.len()
            invariant
                i <= blocks@.len(),
                rooted(old(self).st().ribs),
                self.cx() == old(self).cx(),
                self.st() == res_cond_blocks(old(self).cx(), old(self).st(), blocks@, i as nat),
            decreases blocks@.len() - i,
        {
            proof {
                lemma_blocks_ribs(old(self).cx(), old(self).st(), blocks@, i as nat);
                lemma_expr_ribs(self.cx(), self.st(), None, blocks@[i as int].cond);
            }
            assert(decreases_to!(*blocks => blocks@[i as int].block));
            self.visit_expr(None, &blocks[i].cond);
            self.visit_block(&blocks[i].block);
            i = i + 1;
        }
    }

    /// Resolve the names of a block.
    pub fn visit_block(&mut self, block: &Block)
        requires
            rooted(old(self).st().ribs),
        ensures
            final(self).cx() == old(self).cx(),
            final(self).st() == res_block(old(self).cx(), old(self).st(), *block),
        decreases *block, 0nat,
    {
        let ghost cx = self.cx();
        let ghost st = self.st();
        // add nested items to scope immediately so they're usable anywhere within the block
        self.enter_rib(Namespace::Funcs, RibKind::Items);
        self.enter_rib(Namespace::Vars, RibKind::Items);
        self.add_block_items_to_scope(&block.0);
        // now start resolving things inside the statements
        self.enter_rib(Namespace::Vars, RibKind::Locals);
        proof {
            assert(self.st() == enter_block(st, block.0@));
            lemma_enter_block(st, block.0@);
            lemma_stmts_ribs(cx, self.st(), block.0@, block.0@.len());
        }
        self.visit_stmts(&block.0);
        self.leave_rib(Namespace::Vars, RibKind::Locals);
        self.leave_rib(Namespace::Vars, RibKind::Items);
        self.leave_rib(Namespace::Funcs, RibKind::Items);
    }

    fn visit_consts(&mut self, vars: &Vec<Sp<(Sp<Var>, Sp<Expr>)>>)
        ensures
            final(self).cx() == old(self).cx(),
            final(self).st() == res_consts(old(self).cx(), old(self).st(), vars@, vars@.len()),
    {
        let mut i: usize = 0;
        while i < vars.len()
            invariant
                i <= vars@.len(),
                self.cx() == old(self).cx(),
                self.st() == res_consts(old(self).cx(), old(self).st(), vars@, i as nat),
            decreases vars@.len() - i,
        {
            self.visit_expr(None, &vars[i].value.1);
            i = i + 1;
        }
    }

    /// Resolve the names of an item.
    pub fn visit_item(&mut self, item: &Sp<Item>)
        requires
            rooted(old(self).st().ribs),
        ensures
            final(self).cx() == old(self).cx(),
            final(self).st() == res_item(old(self).cx(), old(self).st(), *item),
        decreases *item, 0nat,
    {
        let ghost cx = self.cx();
        let ghost st = self.st();
        match &item.value {
            Item::Func(func) => {
                if let Some(code) = &func.code {
                    // we have to put the parameters in scope
                    let barrier = RibKind::LocalBarrier { of_what: BarrierKind::Function };
                    self.enter_rib(Namespace::Vars, barrier);
                    self.enter_rib(Namespace::Vars, RibKind::Params);
                    self.add_params_to_scope(&func.params);
                    proof {
                        assert(self.st() == enter_func(st, func.params@));
                        lemma_enter_func(st, func.params@);
                        law_block_keeps_scope(cx, self.st(), *code);
                    }
                    // now resolve the body
                    self.visit_block(code);
                    self.leave_rib(Namespace::Vars, RibKind::Params);
                    self.leave_rib(Namespace::Vars, barrier);
                }
            },
            Item::ConstVar { vars, .. } => {
                let barrier = RibKind::LocalBarrier { of_what: BarrierKind::Const };
                self.enter_rib(Namespace::Vars, barrier);
                proof {
                    lemma_consts_ribs(cx, self.st(), vars@, vars@.len());
                }
                // we don't want to resolve the declaration idents, only the expressions
                self.visit_consts(vars);
                self.leave_rib(Namespace::Vars, barrier);
            },
            Item::AnmScript { code, .. } => self.visit_block(code),
            Item::Timeline { code, .. } => self.visit_block(code),
            Item::Meta { fields, .. } => self.visit_fields(&fields.value.0),
        }
    }

    /// Resolve the names of a value of a section of data.
    pub fn visit_meta(&mut self, meta: &Sp<Meta>)
        ensures
            final(self).cx() == old(self).cx(),
            final(self).st() == res_meta(old(self).cx(), old(self).st(), *meta),
        decreases *meta, 0nat,
    {
        match &meta.value {
            Meta::Scalar(e) => self.visit_expr(None, e),
            Meta::Array(items) => self.visit_metas(items),
            Meta::Object(fields) => self.visit_fields(&fields.value.0),
            Meta::Variant { fields, .. } => self.visit_fields(&fields.value.0),
        }
    }

    fn visit_metas(&mut self, items: &Vec<Sp<Meta>>)
        ensures
            final(self).cx() == old(self).cx(),
            final(self).st() == res_metas(old(self).cx(), old(self).st(), items@, items@.len()),
        decreases *items, 0nat,
    {
        let mut i: usize = 0;
        while i < items.len()
            invariant
                i <= items@.len(),
                self.cx() == old(self).cx(),
                self.st() == res_metas(old(self).cx(), old(self).st(), items@, i as nat),
            decreases items@.len() - i,
        {
            assert(decreases_to!(*items => items@[i as int]));
            self.visit_meta(&items[i]);
            i = i + 1;
        }
    }

    fn visit_fields(&mut self, fields: &Vec<(Sp<Ident>, Sp<Meta>)>)
        ensures
            final(self).cx() == old(self).cx(),
            final(self).st() == res_fields(old(self).cx(), old(self).st(), fields@, fields@.len()),
        decreases *fields, 0nat,
    {
        let mut i: usize = 0;
        while i < fields.len()
            invariant
                i <= fields@.len(),
                self.cx() == old(self).cx(),
                self.st() == res_fields(old(self).cx(), old(self).st(), fields@, i as nat),
            decreases fields@.len() - i,
        {
            assert(decreases_to!(*fields => fields@[i as int]));
            assert(decreases_to!(fields@[i as int] => fields@[i as int].1));
            self.visit_meta(&fields[i].1);
            i = i + 1;
        }
    }

    /// Resolve the names of a file.
    pub fn visit_file(&mut self, script: &ScriptFile)
        requires
            rooted(old(self).st().ribs),
        ensures
            final(self).cx() == old(self).cx(),
            final(self).st() == res_file(old(self).cx(), old(self).st(), script.items@),
    {
        let ghost cx = self.cx();
        self.enter_rib(Namespace::Vars, RibKind::Items);
        self.enter_rib(Namespace::Funcs, RibKind::Items);
        let ghost inner = self.st();
        // add all items to scope immediately so they're usable anywhere
        let mut i: usize = 0;
        while i < script.items.len()
            invariant
                i <= script.items@.len(),
                rooted(inner.ribs),
                inner.ribs.vars.last().kind == RibKind::Items,
                inner.ribs.funcs.last().kind == RibKind::Items,
                cx == self.cx(),
                self.st() == scope_items(inner, script.items@, i as nat),
            decreases script.items@.len() - i,
        {
            proof {
                lemma_scope_items_ribs(inner, script.items@, i as nat);
            }
            self.add_item_to_scope(&script.items[i]);
            i = i + 1;
        }
        proof {
            lemma_scope_items_ribs(inner, script.items@, script.items@.len());
        }
        let ghost scoped = self.st();
        // resolve exprs in the items' bodies before walking any statements, so that local
        // variables are not accidentally made visible inside those items.
        let mut i: usize = 0;
        while i < script.items.len()
            invariant
                i <= script.items@.len(),
                rooted(scoped.ribs),
                self.st().ribs == scoped.ribs,
                cx == self.cx(),
                self.st() == res_items(cx, scoped, script.items@, i as nat),
            decreases script.items@.len() - i,
        {
            proof {
                law_item_keeps_scope(cx, self.st(), script.items@[i as int]);
            }
            self.visit_item(&script.items[i]);
            i = i + 1;
        }
        self.leave_rib(Namespace::Funcs, RibKind::Items);
        self.leave_rib(Namespace::Vars, RibKind::Items);
    }
}

/// The type that a keyword gives to variables.
fn var_ty_of(keyword: TypeKeyword) -> (r: VarType)
    ensures
        r == keyword.var_ty_spec(),
{
    match keyword {
        TypeKeyword::Void => VarType::Untyped { explicit: false },
        other => other.var_ty(),
    }
}

proof fn lemma_stacks_rooted(ribs: Seq<RibV>)
    ensures
        rooted(stacks_of(ribs)),
    decreases ribs.len(),
{
    if ribs.len() > 0 {
        lemma_stacks_rooted(ribs.drop_last());
    }
}

/// What a name is, is what its definition is by view.
proof fn lemma_info_view(v: Visitor, ident: ResIdent)
    ensures
        match v.ctx.info_spec(ident) {
            Some(info) => v.st().info(ident) == Some(info@),
            None => v.st().info(ident) is None,
        },
{
}

/// The state behind a tree of any kind.  Statements without a block get a scope of their own.
pub open spec fn res_node(cx: DefTables, st: NameSt, node: Node<'_>) -> NameSt {
    match node {
        Node::File(file) => res_file(cx, st, file.items@),
        Node::Item(item) => res_item(cx, st, *item),
        Node::Meta(meta) => res_meta(cx, st, *meta),
        Node::RootBlock(block) => res_block(cx, st, *block),
        Node::Stmt(stmt) => res_stmt(
            cx,
            st.enter(Namespace::Vars, RibKind::Locals),
            *stmt,
        ).leave(Namespace::Vars),
        Node::Stmts(stmts) => res_stmts(
            cx,
            st.enter(Namespace::Vars, RibKind::Locals),
            stmts@,
            stmts@.len(),
        ).leave(Namespace::Vars),
        Node::Expr(e) => res_expr(cx, st, None, *e),
    }
}

impl Visitor {
    /// Resolve the names of statements that are not in a block.
    fn visit_bare_stmts(&mut self, stmts: &[Sp<Stmt>])
        requires
            rooted(old(self).st().ribs),
            old(self).st().ribs.vars.last().kind == RibKind::Locals,
        ensures
            final(self).cx() == old(self).cx(),
            final(self).st() == res_stmts(
                old(self).cx(),
                old(self).st(),
                stmts@,
                stmts@.len(),
            ),
    {
        let mut i: usize = 0;
        while i < stmts.len()
            invariant
                i <= stmts@.len(),
                rooted(old(self).st().ribs),
                old(self).st().ribs.vars.last().kind == RibKind::Locals,
                self.cx() == old(self).cx(),
                self.st() == res_stmts(old(self).cx(), old(self).st(), stmts@, i as nat),
            decreases stmts@.len() - i,
        {
            proof {
                lemma_stmts_ribs(old(self).cx(), old(self).st(), stmts@, i as nat);
            }
            self.visit_stmt(&stmts[i]);
            i = i + 1;
        }
    }

    /// Resolve the names of a tree.
    pub fn visit<A: Visitable + ?Sized>(&mut self, ast: &A)
        requires
            rooted(old(self).st().ribs),
        ensures
            final(self).cx() == old(self).cx(),
            final(self).st() == res_node(old(self).cx(), old(self).st(), ast.node_spec()),
    {
        match ast.node() {
            Node::File(file) => self.visit_file(file),
            Node::Item(item) => self.visit_item(item),
            Node::Meta(meta) => self.visit_meta(meta),
            Node::RootBlock(block) => self.visit_block(block),
            Node::Stmt(stmt) => {
                self.enter_rib(Namespace::Vars, RibKind::Locals);
                proof {
                    lemma_stmt_ribs(self.cx(), self.st(), *stmt);
                }
                self.visit_stmt(stmt);
                self.leave_rib(Namespace::Vars, RibKind::Locals);
            },
            Node::Stmts(stmts) => {
                self.enter_rib(Namespace::Vars, RibKind::Locals);
                proof {
                    lemma_stmts_ribs(self.cx(), self.st(), stmts@, stmts@.len());
                }
                self.visit_bare_stmts(stmts);
                self.leave_rib(Namespace::Vars, RibKind::Locals);
            },
            Node::Expr(e) => self.visit_expr(None, e),
        }
    }
}

} // verus!
