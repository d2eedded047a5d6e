//! The types of expressions, and what is well typed.

use crate::ast::visit::Node;
use crate::ast::{
    blob_index, AssignOpKind, BinOpKind, CondBlock, Expr, ExprCall, Item, Meta, PseudoArg, Stmt,
    StmtKind, TypeKeyword, UnOpKind, Var,
};
use crate::context::{required_params, CompilerContext, DefInfo, Signature, SignatureParam};
use crate::ident::Ident;
use crate::passes::type_check::{
    binop_check_spec, binop_result, chk_args, chk_assignment, chk_call, chk_cond, chk_cond_blocks,
    chk_consts, chk_decl, chk_decls, chk_expr, chk_expr_stmt, chk_fields, chk_item, chk_items,
    chk_meta, chk_metas, chk_pseudos, chk_return, chk_stmt, chk_stmts, chk_times, chk_value,
    chk_var, chk_var_weak, func_state, has_error, is_error, law_failed_check_is_reported,
    lemma_binop_reported, lemma_reported_push, lemma_requirements, lemma_value_reported,
    lemma_var_reported, prefix_error, reported, req_exact, req_same, req_scalar, return_ty_spec,
    run_spec, tag_span_spec, unop_check_spec, unop_result, ChkSt, DiagsV, FuncState, TypeDiag,
    VoidReason,
};
use crate::pos::{Sp, Span, Spanned};
use crate::resolve::DefId;
use crate::value::{ExprType, ScalarType, VarType};
use vstd::prelude::*;

verus! {

/// Whether an operator can be applied to two values of a type.
#[verifier::opaque]
pub open spec fn takes(op: BinOpKind, ty: ScalarType) -> bool {
    match op {
        BinOpKind::Add | BinOpKind::Sub | BinOpKind::Mul | BinOpKind::Div | BinOpKind::Rem => ty
            is Int || ty is Float,
        BinOpKind::Eq
        | BinOpKind::Ne
        | BinOpKind::Lt
        | BinOpKind::Le
        | BinOpKind::Gt
        | BinOpKind::Ge => ty is Int || ty is Float,
        _ => ty is Int,
    }
}

/// The type of the result of an operator on two values of a type.
#[verifier::opaque]
pub open spec fn gives(op: BinOpKind, ty: ScalarType) -> ScalarType {
    match op {
        BinOpKind::Add | BinOpKind::Sub | BinOpKind::Mul | BinOpKind::Div | BinOpKind::Rem => ty,
        _ => ScalarType::Int,
    }
}

/// The type of the result of an operator on a value of a type, if it can be applied to it.
#[verifier::opaque]
pub open spec fn gives_of_one(op: UnOpKind, ty: ScalarType) -> Option<ScalarType> {
    match (op, ty) {
        (UnOpKind::Neg, ScalarType::Int) => Some(ScalarType::Int),
        (UnOpKind::Neg, ScalarType::Float) => Some(ScalarType::Float),
        (UnOpKind::Not, ScalarType::Int) => Some(ScalarType::Int),
        (UnOpKind::BitNot, ScalarType::Int) => Some(ScalarType::Int),
        (UnOpKind::CastF, ScalarType::Int) => Some(ScalarType::Float),
        (UnOpKind::CastI, ScalarType::Float) => Some(ScalarType::Int),
        (UnOpKind::Sin, ScalarType::Float) => Some(ScalarType::Float),
        (UnOpKind::Cos, ScalarType::Float) => Some(ScalarType::Float),
        (UnOpKind::Sqrt, ScalarType::Float) => Some(ScalarType::Float),
        _ => None,
    }
}

/// Whether a variable is one: its name stands for a variable, and no sigil makes a number of a
/// string.
pub open spec fn is_var(cx: CompilerContext, var: Var) -> bool {
    match cx.inherent_ty_spec(var.name) {
        None => false,
        Some(ty) => ty == VarType::Typed(ScalarType::String) ==> var.ty_sigil is None,
    }
}

/// The type of a variable where it is used: that of its sigil, or else its own.
pub open spec fn var_type(cx: CompilerContext, var: Var) -> Option<ScalarType> {
    if !is_var(cx, var) {
        None
    } else {
        match (var.ty_sigil, cx.inherent_ty_spec(var.name)) {
            (Some(sigil), _) => Some(sigil.ty_spec()),
            (None, Some(VarType::Typed(ty))) => Some(ty),
            _ => None,
        }
    }
}

/// The type of an expression, if it has one.
pub open spec fn typing(cx: CompilerContext, e: Sp<Expr>) -> Option<ExprType>
    decreases e, 0nat,
{
    match e.value {
        Expr::LitFloat { .. } => Some(ExprType::Value(ScalarType::Float)),
        Expr::LitInt { .. } => Some(ExprType::Value(ScalarType::Int)),
        Expr::LitString(_) => Some(ExprType::Value(ScalarType::String)),
        Expr::LabelProperty { .. } => Some(ExprType::Value(ScalarType::Int)),
        Expr::EnumConst { .. } => Some(ExprType::Value(ScalarType::Int)),
        Expr::Var(var) => match var_type(cx, var.value) {
            Some(ty) => Some(ExprType::Value(ty)),
            None => None,
        },
        Expr::BinOp(a, op, b) => match (typing(cx, *a), typing(cx, *b)) {
            (Some(ExprType::Value(x)), Some(ExprType::Value(y))) => if x == y && takes(
                op.value,
                x,
            ) {
                Some(ExprType::Value(gives(op.value, x)))
            } else {
                None
            },
            _ => None,
        },
        Expr::UnOp(op, x) => match typing(cx, *x) {
            Some(ExprType::Value(ty)) => match gives_of_one(op.value, ty) {
                Some(ty) => Some(ExprType::Value(ty)),
                None => None,
            },
            _ => None,
        },
        Expr::Ternary { cond, left, right, .. } => match (
            typing(cx, *cond),
            typing(cx, *left),
            typing(cx, *right),
        ) {
            (
                Some(ExprType::Value(ScalarType::Int)),
                Some(ExprType::Value(x)),
                Some(ExprType::Value(y)),
            ) => if x == y {
                Some(ExprType::Value(x))
            } else {
                None
            },
            _ => None,
        },
        Expr::Call(call) => call_type(cx, call),
        Expr::XcrementOp { .. } => None,
        Expr::DiffSwitch(_) => None,
    }
}

/// Whether a call has as many arguments as a function takes: one for each parameter, where those
/// from an optional one on can be left out.
pub open spec fn count_fits(params: Seq<SignatureParam>, n: nat) -> bool {
    n == params.len() || n < params.len() && exists|j: int|
        0 <= j <= n && (#[trigger] params[j]).optional
}

/// The type of a call, if it has one.  With a blob in place of the arguments it has no value.
pub open spec fn call_type(cx: CompilerContext, call: ExprCall) -> Option<ExprType>
    decreases call, 0nat,
{
    if !pseudos_typed(cx, call.pseudos@, call.pseudos@.len()) {
        None
    } else if exists|i: int|
        0 <= i < call.pseudos@.len() && (#[trigger] call.pseudos@[i]).value.kind.value is Blob {
        if call.args@.len() == 0 {
            Some(ExprType::Void)
        } else {
            None
        }
    } else {
        match cx.signature_spec(call.name.value) {
            Ok(siggy) => if count_fits(siggy.params@, call.args@.len()) && args_typed(
                cx,
                call.args@,
                siggy.params@,
                call.args@.len(),
            ) {
                Some(siggy.return_ty.value)
            } else {
                None
            },
            Err(_) => None,
        }
    }
}

/// Whether the first `n` pseudo-arguments have the types that they must have.
pub open spec fn pseudos_typed(cx: CompilerContext, pseudos: Seq<Sp<PseudoArg>>, n: nat) -> bool
    decreases pseudos, n,
{
    if n == 0 || n > pseudos.len() {
        true
    } else {
        &&& pseudos_typed(cx, pseudos, (n - 1) as nat)
        &&& typing(cx, pseudos[n - 1].value.value) == Some(
            ExprType::Value(
                if pseudos[n - 1].value.kind.value is Blob {
                    ScalarType::String
                } else {
                    ScalarType::Int
                },
            ),
        )
    }
}

/// Whether each of the first `n` arguments has the type of its parameter, or any if the parameter
/// has none.
pub open spec fn args_typed(
    cx: CompilerContext,
    args: Seq<Sp<Expr>>,
    params: Seq<SignatureParam>,
    n: nat,
) -> bool
    decreases args, n,
{
    if n == 0 || n > args.len() {
        true
    } else {
        &&& args_typed(cx, args, params, (n - 1) as nat)
        &&& match typing(cx, args[n - 1]) {
            Some(ExprType::Value(ty)) => params[n - 1].ty.value matches VarType::Typed(expected)
                ==> ty == expected,
            _ => false,
        }
    }
}

// =============================================================================

proof fn lemma_var_type(cx: CompilerContext, d: DiagsV, var: Sp<Var>)
    ensures
        chk_var(cx, d, var).0 == var_type(cx, var.value),
        chk_var_weak(cx, d, var).0 == is_var(cx, var.value),
{
}

proof fn lemma_binop(
    d: DiagsV,
    op: Sp<BinOpKind>,
    types: (ScalarType, ScalarType),
    spans: (Span, Span),
)
    ensures
        binop_check_spec(d, op, types, spans).0 == (types.0 == types.1 && takes(
            op.value,
            types.0,
        )),
        takes(op.value, types.0) ==> binop_result(op.value, types.0) == gives(op.value, types.0),
{
    reveal(takes);
    reveal(gives);
}

proof fn lemma_unop(d: DiagsV, op: Sp<UnOpKind>, ty: ScalarType, span: Span)
    ensures
        unop_check_spec(d, op, ty, span).0 == (gives_of_one(op.value, ty) is Some),
        gives_of_one(op.value, ty) matches Some(out) ==> unop_result(op.value, ty) == out,
{
    reveal(gives_of_one);
}

/// The checker gives an expression the type that it has, and none if it has none.
#[verifier::rlimit(60)]
pub proof fn law_checker_gives_the_type(cx: CompilerContext, d: DiagsV, e: Sp<Expr>)
    ensures
        chk_expr(cx, d, e).0 == typing(cx, e),
    decreases e, 0nat,
{
    match e.value {
        Expr::Var(var) => lemma_var_type(cx, d, var),
        Expr::BinOp(a, op, b) => {
            let d1 = chk_value(cx, d, *a, op.span).1;
            lemma_value_type(cx, d, *a, op.span);
            lemma_value_type(cx, d1, *b, op.span);
            let d2 = chk_value(cx, d1, *b, op.span).1;
            if let (Some(x), Some(y)) = (value_of(typing(cx, *a)), value_of(typing(cx, *b))) {
                lemma_binop(d2, op, (x, y), (a.span, b.span));
            }
        },
        Expr::UnOp(op, x) => {
            lemma_value_type(cx, d, *x, op.span);
            let d1 = chk_value(cx, d, *x, op.span).1;
            if let Some(ty) = value_of(typing(cx, *x)) {
                lemma_unop(d1, op, ty, x.span);
            }
        },
        Expr::Ternary { cond, question, left, colon, right } => {
            let d1 = chk_value(cx, d, *left, question.span).1;
            let d2 = chk_value(cx, d1, *right, colon.span).1;
            lemma_value_type(cx, d, *left, question.span);
            lemma_value_type(cx, d1, *right, colon.span);
            lemma_value_type(cx, d2, *cond, colon.span);
        },
        Expr::Call(call) => {
            lemma_call_type(cx, d, call);
            assert(chk_expr(cx, d, e) == chk_call(cx, d, call));
            assert(typing(cx, e) == call_type(cx, call));
        },
        _ => {},
    }
}

pub open spec fn value_of(ty: Option<ExprType>) -> Option<ScalarType> {
    match ty {
        Some(ExprType::Value(ty)) => Some(ty),
        _ => None,
    }
}

proof fn lemma_value_type(cx: CompilerContext, d: DiagsV, e: Sp<Expr>, reason: Span)
    ensures
        chk_value(cx, d, e, reason).0 == value_of(typing(cx, e)),
    decreases e, 1nat,
{
    law_checker_gives_the_type(cx, d, e);
}

proof fn lemma_pseudos_type(cx: CompilerContext, d: DiagsV, pseudos: Seq<Sp<PseudoArg>>, n: nat)
    ensures
        chk_pseudos(cx, d, pseudos, n).0 == pseudos_typed(cx, pseudos, n),
    decreases pseudos, n,
{
    if n > 0 && n <= pseudos.len() {
        lemma_pseudos_type(cx, d, pseudos, (n - 1) as nat);
        let d1 = chk_pseudos(cx, d, pseudos, (n - 1) as nat).1;
        let p = pseudos[n - 1].value;
        lemma_value_type(cx, d1, p.value, tag_span_spec(p));
    }
}

proof fn lemma_args_type(
    cx: CompilerContext,
    d: DiagsV,
    args: Seq<Sp<Expr>>,
    siggy: Signature,
    name: Span,
    n: nat,
)
    ensures
        chk_args(cx, d, args, siggy, name, n).0 == args_typed(cx, args, siggy.params@, n),
    decreases args, n,
{
    if n > 0 && n <= args.len() {
        lemma_args_type(cx, d, args, siggy, name, (n - 1) as nat);
        let d1 = chk_args(cx, d, args, siggy, name, (n - 1) as nat).1;
        lemma_value_type(cx, d1, args[n - 1], name);
    }
}

proof fn lemma_blob(pseudos: Seq<Sp<PseudoArg>>, n: nat)
    requires
        n <= pseudos.len(),
    ensures
        blob_index(pseudos, n) is Some <==> exists|i: int|
            0 <= i < n && (#[trigger] pseudos[i]).value.kind.value is Blob,
    decreases n,
{
    if n > 0 {
        lemma_blob(pseudos, (n - 1) as nat);
        if exists|i: int| 0 <= i < n && (#[trigger] pseudos[i]).value.kind.value is Blob {
            let i = choose|i: int| 0 <= i < n && (#[trigger] pseudos[i]).value.kind.value is Blob;
            assert(pseudos[i].value.kind.value is Blob);
        }
    }
}

proof fn lemma_required(params: Seq<SignatureParam>, n: nat)
    requires
        n <= params.len(),
    ensures
        required_params(params, n) <= n,
        forall|j: int|
            0 <= j < required_params(params, n) ==> !(#[trigger] params[j]).optional,
        required_params(params, n) < n ==> params[required_params(params, n) as int].optional,
    decreases n,
{
    if n > 0 {
        lemma_required(params, (n - 1) as nat);
    }
}

proof fn lemma_count(params: Seq<SignatureParam>, n: nat)
    ensures
        count_fits(params, n) <==> required_params(params, params.len()) <= n <= params.len(),
{
    lemma_required(params, params.len());
    let min = required_params(params, params.len());
    if min <= n < params.len() {
        assert(params[min as int].optional);
    }
}

proof fn lemma_call_type(cx: CompilerContext, d: DiagsV, call: ExprCall)
    ensures
        chk_call(cx, d, call).0 == call_type(cx, call),
    decreases call, 0nat,
{
    let pseudos = call.pseudos@;
    let args = call.args@;
    lemma_pseudos_type(cx, d, pseudos, pseudos.len());
    lemma_blob(pseudos, pseudos.len());
    let d1 = chk_pseudos(cx, d, pseudos, pseudos.len()).1;
    if let Ok(siggy) = cx.signature_spec(call.name.value) {
        lemma_count(siggy.params@, args.len());
        lemma_args_type(cx, d1, args, siggy, call.name.span, args.len());
    }
}

/// Nothing is said about an expression just when it has a type, and else an error.
pub proof fn law_expression_is_accepted_iff_typed(cx: CompilerContext, d: DiagsV, e: Sp<Expr>)
    ensures
        chk_expr(cx, d, e).1 == d <==> typing(cx, e) is Some,
        typing(cx, e) is None ==> chk_expr(cx, d, e).1.len() > d.len() && is_error(
            chk_expr(cx, d, e).1.last(),
        ),
{
    law_checker_gives_the_type(cx, d, e);
    law_failed_check_is_reported(cx, d, e);
}

// =============================================================================
// Statements

/// Whether a condition is an integer, or a variable that is one and is counted down.
pub open spec fn cond_typed(cx: CompilerContext, cond: Sp<Expr>) -> bool {
    match cond.value {
        Expr::XcrementOp { op, order, var } => op.value is Dec && order is Pre && var_type(
            cx,
            var.value,
        ) == Some(ScalarType::Int),
        _ => typing(cx, cond) == Some(ExprType::Value(ScalarType::Int)),
    }
}

/// Whether both sides of an assignment have one type, and one that the operator takes.
pub open spec fn assignment_typed(
    cx: CompilerContext,
    var: Var,
    op: AssignOpKind,
    value: Sp<Expr>,
) -> bool {
    match (var_type(cx, var), typing(cx, value)) {
        (Some(x), Some(ExprType::Value(y))) => x == y && match op {
            AssignOpKind::Assign => true,
            AssignOpKind::Add => takes(BinOpKind::Add, x),
            AssignOpKind::Sub => takes(BinOpKind::Sub, x),
            AssignOpKind::Mul => takes(BinOpKind::Mul, x),
            AssignOpKind::Div => takes(BinOpKind::Div, x),
            AssignOpKind::Rem => takes(BinOpKind::Rem, x),
            AssignOpKind::BitOr => takes(BinOpKind::BitOr, x),
            AssignOpKind::BitXor => takes(BinOpKind::BitXor, x),
            AssignOpKind::BitAnd => takes(BinOpKind::BitAnd, x),
            AssignOpKind::ShiftLeft => takes(BinOpKind::ShiftLeft, x),
            AssignOpKind::ShiftRightSigned => takes(BinOpKind::ShiftRightSigned, x),
            AssignOpKind::ShiftRightUnsigned => takes(BinOpKind::ShiftRightUnsigned, x),
        },
        _ => false,
    }
}

/// Whether the count of a loop is an integer, and so is the variable that holds it.
pub open spec fn times_typed(cx: CompilerContext, clobber: Option<Sp<Var>>, count: Sp<Expr>) -> bool {
    &&& typing(cx, count) == Some(ExprType::Value(ScalarType::Int))
    &&& clobber matches Some(var) ==> var_type(cx, var.value) == Some(ScalarType::Int)
}

/// Whether a function returns what it says that it returns, if its name stands for a function.
pub open spec fn return_typed(
    cx: CompilerContext,
    func: Option<DefId>,
    value: Option<Sp<Expr>>,
) -> bool {
    match func {
        None => false,
        Some(def) => cx.defs.infos@.contains_key(def.0) && match cx.defs.infos@[def.0] {
            DefInfo::Func { siggy } => match (siggy.return_ty.value, value) {
                (ExprType::Void, None) => true,
                (ExprType::Value(ty), Some(e)) => typing(cx, e) == Some(ExprType::Value(ty)),
                _ => false,
            },
            _ => false,
        },
    }
}

/// Whether a variable can be declared with a keyword, and its value has the type with which the
/// variable is read.
pub open spec fn decl_typed(
    cx: CompilerContext,
    keyword: TypeKeyword,
    var: Var,
    value: Option<Sp<Expr>>,
) -> bool {
    &&& is_var(cx, var)
    &&& keyword.var_ty_spec() matches VarType::Typed(ty) ==> var_type(cx, var) == Some(ty)
    &&& value matches Some(e) ==> var_type(cx, var) is Some && typing(cx, e) == Some(
        ExprType::Value(var_type(cx, var)->0),
    )
}

/// Whether a statement is well typed inside some functions, the innermost last.
pub open spec fn stmt_typed(cx: CompilerContext, funcs: Seq<Option<DefId>>, stmt: Sp<Stmt>) -> bool
    decreases stmt, 0nat,
{
    match stmt.value.kind {
        StmtKind::Item(item) => item_typed(cx, funcs, *item),
        StmtKind::CondJump { cond, .. } => cond_typed(cx, cond),
        StmtKind::CondChain(chain) => {
            &&& cond_blocks_typed(cx, funcs, chain.cond_blocks@, chain.cond_blocks@.len())
            &&& chain.else_block matches Some(block) ==> stmts_typed(
                cx,
                funcs,
                block.0@,
                block.0@.len(),
            )
        },
        StmtKind::While { cond, block, .. } => {
            &&& cond_typed(cx, cond)
            &&& stmts_typed(cx, funcs, block.0@, block.0@.len())
        },
        StmtKind::Loop { block, .. } => stmts_typed(cx, funcs, block.0@, block.0@.len()),
        StmtKind::Block(block) => stmts_typed(cx, funcs, block.0@, block.0@.len()),
        StmtKind::Return { value, .. } => funcs.len() > 0 && return_typed(
            cx,
            funcs[funcs.len() - 1],
            value,
        ),
        StmtKind::Assignment { var, op, value } => assignment_typed(cx, var.value, op.value, value),
        StmtKind::Expr(e) => typing(cx, e) == Some(ExprType::Void),
        StmtKind::Times { clobber, count, block, .. } => {
            &&& times_typed(cx, clobber, count)
            &&& stmts_typed(cx, funcs, block.0@, block.0@.len())
        },
        StmtKind::Declaration { ty_keyword, vars } => forall|i: int|
            0 <= i < vars@.len() ==> decl_typed(
                cx,
                ty_keyword.value,
                (#[trigger] vars@[i]).value.0.value,
                vars@[i].value.1,
            ),
        StmtKind::CallSub { .. } => false,
        _ => true,
    }
}

/// Whether the first `n` statements are well typed.
pub open spec fn stmts_typed(
    cx: CompilerContext,
    funcs: Seq<Option<DefId>>,
    stmts: Seq<Sp<Stmt>>,
    n: nat,
) -> bool
    decreases stmts, n,
{
    if n == 0 || n > stmts.len() {
        true
    } else {
        stmts_typed(cx, funcs, stmts, (n - 1) as nat) && stmt_typed(cx, funcs, stmts[n - 1])
    }
}

/// Whether the first `n` conditional blocks are well typed.
pub open spec fn cond_blocks_typed(
    cx: CompilerContext,
    funcs: Seq<Option<DefId>>,
    blocks: Seq<CondBlock>,
    n: nat,
) -> bool
    decreases blocks, n,
{
    if n == 0 || n > blocks.len() {
        true
    } else {
        &&& cond_blocks_typed(cx, funcs, blocks, (n - 1) as nat)
        &&& cond_typed(cx, blocks[n - 1].cond)
        &&& stmts_typed(cx, funcs, blocks[n - 1].block.0@, blocks[n - 1].block.0@.len())
    }
}

/// Whether an item is well typed.  The code of a function is one function further in.
pub open spec fn item_typed(cx: CompilerContext, funcs: Seq<Option<DefId>>, item: Sp<Item>) -> bool
    decreases item, 0nat,
{
    match item.value {
        Item::Func(func) => func.code matches Some(code) ==> stmts_typed(
            cx,
            funcs.push(cx.def_spec(func.ident.value)),
            code.0@,
            code.0@.len(),
        ),
        Item::AnmScript { code, .. } => stmts_typed(cx, funcs, code.0@, code.0@.len()),
        Item::Timeline { code, .. } => stmts_typed(cx, funcs, code.0@, code.0@.len()),
        Item::Meta { fields, .. } => fields_typed(cx, fields.value.0@, fields.value.0@.len()),
        Item::ConstVar { vars, .. } => forall|i: int|
            0 <= i < vars@.len() ==> typing(cx, (#[trigger] vars@[i]).value.1) is Some,
    }
}

/// Whether every expression in metadata has a type.
pub open spec fn meta_typed(cx: CompilerContext, meta: Sp<Meta>) -> bool
    decreases meta, 0nat,
{
    match meta.value {
        Meta::Scalar(e) => typing(cx, e) is Some,
        Meta::Array(items) => metas_typed(cx, items@, items@.len()),
        Meta::Object(fields) => fields_typed(cx, fields.value.0@, fields.value.0@.len()),
        Meta::Variant { fields, .. } => fields_typed(cx, fields.value.0@, fields.value.0@.len()),
    }
}

/// Whether every expression in the first `n` pieces of metadata has a type.
pub open spec fn metas_typed(cx: CompilerContext, items: Seq<Sp<Meta>>, n: nat) -> bool
    decreases items, n,
{
    if n == 0 || n > items.len() {
        true
    } else {
        metas_typed(cx, items, (n - 1) as nat) && meta_typed(cx, items[n - 1])
    }
}

/// Whether every expression in the first `n` fields has a type.
pub open spec fn fields_typed(
    cx: CompilerContext,
    fields: Seq<(Sp<Ident>, Sp<Meta>)>,
    n: nat,
) -> bool
    decreases fields, n,
{
    if n == 0 || n > fields.len() {
        true
    } else {
        fields_typed(cx, fields, (n - 1) as nat) && meta_typed(cx, fields[n - 1].1)
    }
}

/// Whether a tree of any kind is well typed.
pub open spec fn well_typed(cx: CompilerContext, node: Node<'_>) -> bool {
    match node {
        Node::File(file) => forall|i: int|
            0 <= i < file.items@.len() ==> item_typed(cx, seq![], #[trigger] file.items@[i]),
        Node::Item(item) => item_typed(cx, seq![], *item),
        Node::Meta(meta) => meta_typed(cx, *meta),
        Node::RootBlock(block) => stmts_typed(cx, seq![], block.0@, block.0@.len()),
        Node::Stmt(stmt) => stmt_typed(cx, seq![], *stmt),
        Node::Stmts(stmts) => stmts_typed(cx, seq![], stmts@, stmts@.len()),
        Node::Expr(e) => typing(cx, *e) is Some,
    }
}

// -----------------------------------------------------------------------------

/// Whether diagnostics go on, and with an error just if all is not well.
#[verifier::opaque]
spec fn outcome(before: DiagsV, after: DiagsV, ok: bool) -> bool {
    &&& before.len() <= after.len()
    &&& forall|k: int| 0 <= k < before.len() ==> #[trigger] after[k] == before[k]
    &&& ok <==> forall|k: int|
        before.len() <= k < after.len() ==> !is_error(#[trigger] after[k])
}

proof fn lemma_outcome(before: DiagsV, after: DiagsV, ok: bool)
    requires
        reported(before, after, ok),
    ensures
        outcome(before, after, ok),
{
    reveal(outcome);
    assert forall|k: int| 0 <= k < before.len() implies #[trigger] after[k] == before[k] by {
        assert(after.take(before.len() as int)[k] == after[k]);
    }
    if !ok {
        assert(is_error(after[after.len() - 1]));
    }
}

proof fn lemma_through(a: DiagsV, b: DiagsV, c: DiagsV, first: bool, second: bool)
    requires
        outcome(a, b, first),
        outcome(b, c, second),
    ensures
        outcome(a, c, first && second),
{
    reveal(outcome);
    assert forall|k: int| 0 <= k < a.len() implies #[trigger] c[k] == a[k] by {
        assert(b[k] == a[k]);
    }
    if first && second {
        assert forall|k: int| a.len() <= k < c.len() implies !is_error(#[trigger] c[k]) by {
            if k < b.len() {
                assert(c[k] == b[k]);
            }
        }
    } else if !first {
        let k = choose|k: int| a.len() <= k < b.len() && is_error(#[trigger] b[k]);
        assert(c[k] == b[k]);
    } else {
        let k = choose|k: int| b.len() <= k < c.len() && is_error(#[trigger] c[k]);
        assert(is_error(c[k]));
    }
}

proof fn lemma_nothing(d: DiagsV)
    ensures
        outcome(d, d, true),
{
    reveal(outcome);
}

proof fn lemma_error(d: DiagsV, diag: TypeDiag)
    requires
        is_error(diag),
    ensures
        outcome(d, d.push(diag), false),
{
    lemma_reported_push(d, diag);
    lemma_outcome(d, d.push(diag), false);
}

proof fn lemma_expr_outcome(cx: CompilerContext, d: DiagsV, e: Sp<Expr>)
    ensures
        outcome(d, chk_expr(cx, d, e).1, typing(cx, e) is Some),
        chk_expr(cx, d, e).0 == typing(cx, e),
{
    law_checker_gives_the_type(cx, d, e);
    law_failed_check_is_reported(cx, d, e);
    lemma_outcome(d, chk_expr(cx, d, e).1, typing(cx, e) is Some);
}

proof fn lemma_value_outcome(cx: CompilerContext, d: DiagsV, e: Sp<Expr>, reason: Span)
    ensures
        outcome(d, chk_value(cx, d, e, reason).1, value_of(typing(cx, e)) is Some),
        chk_value(cx, d, e, reason).0 == value_of(typing(cx, e)),
{
    lemma_value_type(cx, d, e, reason);
    lemma_value_reported(cx, d, e, reason);
    lemma_outcome(d, chk_value(cx, d, e, reason).1, value_of(typing(cx, e)) is Some);
}

proof fn lemma_var_outcome(cx: CompilerContext, d: DiagsV, var: Sp<Var>)
    ensures
        outcome(d, chk_var(cx, d, var).1, var_type(cx, var.value) is Some),
        chk_var(cx, d, var).0 == var_type(cx, var.value),
        outcome(d, chk_var_weak(cx, d, var).1, is_var(cx, var.value)),
        chk_var_weak(cx, d, var).0 == is_var(cx, var.value),
{
    lemma_var_type(cx, d, var);
    lemma_var_reported(cx, d, var);
    lemma_outcome(d, chk_var(cx, d, var).1, var_type(cx, var.value) is Some);
    lemma_requirements(d);
    lemma_outcome(d, chk_var_weak(cx, d, var).1, is_var(cx, var.value));
}

proof fn lemma_exact_outcome(d: DiagsV, ty: ExprType, expected: ExprType, cause: Span, span: Span)
    ensures
        outcome(d, req_exact(d, ty, expected, cause, span).1, ty == expected),
{
    lemma_requirements(d);
    lemma_outcome(d, req_exact(d, ty, expected, cause, span).1, ty == expected);
}

proof fn lemma_same_outcome(
    d: DiagsV,
    types: (ScalarType, ScalarType),
    cause: Span,
    spans: (Span, Span),
)
    ensures
        outcome(d, req_same(d, types, cause, spans).1, types.0 == types.1),
{
    lemma_requirements(d);
    lemma_outcome(d, req_same(d, types, cause, spans).1, types.0 == types.1);
}

proof fn lemma_cond_outcome(cx: CompilerContext, d: DiagsV, cond: Sp<Expr>)
    ensures
        outcome(d, chk_cond(cx, d, cond), cond_typed(cx, cond)),
{
    let counted = match cond.value {
        Expr::XcrementOp { op, order, .. } => op.value is Dec && order is Pre,
        _ => false,
    };
    if counted {
        let var = cond.value->XcrementOp_var;
        lemma_var_outcome(cx, d, var);
        let (ty, d1) = chk_var(cx, d, var);
        if let Some(ty) = ty {
            lemma_exact_outcome(
                d1,
                ExprType::Value(ty),
                ExprType::Value(ScalarType::Int),
                cond.span,
                cond.span,
            );
            lemma_through(d, d1, chk_cond(cx, d, cond), true, ty is Int);
        }
    } else {
        lemma_value_outcome(cx, d, cond, cond.span);
        let (ty, d1) = chk_value(cx, d, cond, cond.span);
        if let Some(ty) = ty {
            lemma_exact_outcome(
                d1,
                ExprType::Value(ty),
                ExprType::Value(ScalarType::Int),
                cond.span,
                cond.span,
            );
            lemma_through(d, d1, chk_cond(cx, d, cond), true, ty is Int);
        }
    }
}

proof fn lemma_assignment_outcome(
    cx: CompilerContext,
    d: DiagsV,
    var: Sp<Var>,
    op: Sp<AssignOpKind>,
    value: Sp<Expr>,
)
    ensures
        outcome(
            d,
            chk_assignment(cx, d, var, op, value),
            assignment_typed(cx, var.value, op.value, value),
        ),
{
    lemma_var_outcome(cx, d, var);
    let (x, d1) = chk_var(cx, d, var);
    lemma_value_outcome(cx, d1, value, op.span);
    let (y, d2) = chk_value(cx, d1, value, op.span);
    lemma_through(d, d1, d2, x is Some, y is Some);
    if let (Some(x), Some(y)) = (x, y) {
        let spans = (var.span, value.span);
        match op.value.corresponding_binop_spec() {
            None => {
                lemma_same_outcome(d2, (x, y), op.span, spans);
                lemma_through(d, d2, chk_assignment(cx, d, var, op, value), true, x == y);
            },
            Some(binop) => {
                let sp = Spanned { span: op.span, value: binop };
                lemma_binop(d2, sp, (x, y), spans);
                lemma_binop_reported(d2, sp, (x, y), spans);
                let ok = x == y && takes(binop, x);
                lemma_outcome(d2, binop_check_spec(d2, sp, (x, y), spans).1, ok);
                lemma_through(d, d2, chk_assignment(cx, d, var, op, value), true, ok);
            },
        }
    }
}

proof fn lemma_expr_stmt_outcome(cx: CompilerContext, d: DiagsV, e: Sp<Expr>)
    ensures
        outcome(d, chk_expr_stmt(cx, d, e), typing(cx, e) == Some(ExprType::Void)),
{
    lemma_expr_outcome(cx, d, e);
    let (ty, d1) = chk_expr(cx, d, e);
    if let Some(ExprType::Value(ty)) = ty {
        let diag = TypeDiag::NotVoid { span: e.span, ty, reason: VoidReason::ExpressionStatement };
        lemma_error(d1, diag);
        lemma_through(d, d1, d1.push(diag), true, false);
    }
}

proof fn lemma_times_outcome(
    cx: CompilerContext,
    d: DiagsV,
    clobber: Option<Sp<Var>>,
    count: Sp<Expr>,
)
    ensures
        outcome(d, chk_times(cx, d, clobber, count), times_typed(cx, clobber, count)),
{
    lemma_value_outcome(cx, d, count, count.span);
    let (ty, d1) = chk_value(cx, d, count, count.span);
    if let Some(ty) = ty {
        let (ok, d2) = req_exact(
            d1,
            ExprType::Value(ty),
            ExprType::Value(ScalarType::Int),
            count.span,
            count.span,
        );
        lemma_exact_outcome(
            d1,
            ExprType::Value(ty),
            ExprType::Value(ScalarType::Int),
            count.span,
            count.span,
        );
        lemma_through(d, d1, d2, true, ok);
        if let (true, Some(var)) = (ok, clobber) {
            lemma_var_outcome(cx, d2, var);
            let (x, d3) = chk_var(cx, d2, var);
            lemma_through(d, d2, d3, true, x is Some);
            if let Some(x) = x {
                lemma_same_outcome(d3, (x, ty), count.span, (var.span, count.span));
                lemma_through(d, d3, chk_times(cx, d, clobber, count), true, x == ty);
            }
        }
    }
}

proof fn lemma_decl_outcome(
    cx: CompilerContext,
    d: DiagsV,
    keyword: Sp<TypeKeyword>,
    var: Sp<Var>,
    value: Option<Sp<Expr>>,
)
    ensures
        outcome(
            d,
            chk_decl(cx, d, keyword, var, value),
            decl_typed(cx, keyword.value, var.value, value),
        ),
{
    lemma_var_outcome(cx, d, var);
    let (ok, d1) = chk_var_weak(cx, d, var);
    if ok {
        let (ok2, d2) = match keyword.value.var_ty_spec() {
            VarType::Untyped { .. } => (true, d1),
            VarType::Typed(decl_ty) => match cx.read_ty_spec(var.value) {
                Some(VarType::Typed(var_ty)) => req_scalar(
                    d1,
                    decl_ty,
                    var_ty,
                    keyword.span,
                    var.span,
                ),
                _ => (false, d1.push(prefix_error(cx, var))),
            },
        };
        match keyword.value.var_ty_spec() {
            VarType::Untyped { .. } => lemma_nothing(d1),
            VarType::Typed(decl_ty) => match cx.read_ty_spec(var.value) {
                Some(VarType::Typed(var_ty)) => lemma_exact_outcome(
                    d1,
                    ExprType::Value(decl_ty),
                    ExprType::Value(var_ty),
                    keyword.span,
                    var.span,
                ),
                _ => lemma_error(d1, prefix_error(cx, var)),
            },
        }
        assert(outcome(d1, d2, ok2));
        lemma_through(d, d1, d2, true, ok2);
        if let (true, Some(e)) = (ok2, value) {
            lemma_var_outcome(cx, d2, var);
            let (x, d3) = chk_var(cx, d2, var);
            lemma_through(d, d2, d3, true, x is Some);
            if let Some(x) = x {
                lemma_value_outcome(cx, d3, e, e.span);
                let (y, d4) = chk_value(cx, d3, e, e.span);
                lemma_through(d, d3, d4, true, y is Some);
                if let Some(y) = y {
                    lemma_exact_outcome(
                        d4,
                        ExprType::Value(y),
                        ExprType::Value(x),
                        keyword.span,
                        e.span,
                    );
                    lemma_through(d, d4, chk_decl(cx, d, keyword, var, value), true, x == y);
                }
            }
        }
    }
}

proof fn lemma_decls_outcome(
    cx: CompilerContext,
    d: DiagsV,
    keyword: Sp<TypeKeyword>,
    vars: Seq<Sp<(Sp<Var>, Option<Sp<Expr>>)>>,
    n: nat,
)
    requires
        n <= vars.len(),
    ensures
        outcome(
            d,
            chk_decls(cx, d, keyword, vars, n),
            forall|i: int|
                0 <= i < n ==> decl_typed(
                    cx,
                    keyword.value,
                    (#[trigger] vars[i]).value.0.value,
                    vars[i].value.1,
                ),
        ),
    decreases n,
{
    if n == 0 {
        lemma_nothing(d);
    } else {
        lemma_decls_outcome(cx, d, keyword, vars, (n - 1) as nat);
        let d1 = chk_decls(cx, d, keyword, vars, (n - 1) as nat);
        let (var, value) = vars[n - 1].value;
        lemma_decl_outcome(cx, d1, keyword, var, value);
        let before = forall|i: int|
            0 <= i < n - 1 ==> decl_typed(
                cx,
                keyword.value,
                (#[trigger] vars[i]).value.0.value,
                vars[i].value.1,
            );
        let last = decl_typed(cx, keyword.value, var.value, value);
        lemma_through(d, d1, chk_decls(cx, d, keyword, vars, n), before, last);
        let all = forall|i: int|
            0 <= i < n ==> decl_typed(
                cx,
                keyword.value,
                (#[trigger] vars[i]).value.0.value,
                vars[i].value.1,
            );
        assert(all == (before && last)) by {
            if before && last {
                assert forall|i: int| 0 <= i < n implies decl_typed(
                    cx,
                    keyword.value,
                    (#[trigger] vars[i]).value.0.value,
                    vars[i].value.1,
                ) by {
                }
            }
            if all {
                assert(decl_typed(
                    cx,
                    keyword.value,
                    vars[n - 1].value.0.value,
                    vars[n - 1].value.1,
                ));
            }
        }
    }
}

proof fn lemma_return_outcome(cx: CompilerContext, st: ChkSt, keyword: Span, value: Option<Sp<Expr>>)
    requires
        st.stack.len() > 0,
    ensures
        outcome(
            st.d,
            chk_return(cx, st, keyword, value).d,
            return_typed(cx, st.stack.last().func_def_id, value),
        ),
{
    let d = st.d;
    match return_ty_spec(cx, st.stack.last().func_def_id) {
        None => lemma_error(d, TypeDiag::Unresolved { span: keyword }),
        Some(expected) => match value {
            None => lemma_exact_outcome(d, ExprType::Void, expected.value, expected.span, keyword),
            Some(e) => {
                lemma_value_outcome(cx, d, e, keyword);
                let (ty, d1) = chk_value(cx, d, e, keyword);
                if let Some(ty) = ty {
                    let ty = ExprType::Value(ty);
                    lemma_exact_outcome(d1, ty, expected.value, expected.span, e.span);
                    let ok = ty == expected.value;
                    lemma_through(d, d1, chk_return(cx, st, keyword, value).d, true, ok);
                }
            },
        },
    }
}

proof fn lemma_consts_outcome(
    cx: CompilerContext,
    d: DiagsV,
    vars: Seq<Sp<(Sp<Var>, Sp<Expr>)>>,
    n: nat,
)
    requires
        n <= vars.len(),
    ensures
        outcome(
            d,
            chk_consts(cx, d, vars, n),
            forall|i: int| 0 <= i < n ==> typing(cx, (#[trigger] vars[i]).value.1) is Some,
        ),
    decreases n,
{
    if n == 0 {
        lemma_nothing(d);
    } else {
        lemma_consts_outcome(cx, d, vars, (n - 1) as nat);
        let d1 = chk_consts(cx, d, vars, (n - 1) as nat);
        lemma_expr_outcome(cx, d1, vars[n - 1].value.1);
        let before = forall|i: int|
            0 <= i < n - 1 ==> typing(cx, (#[trigger] vars[i]).value.1) is Some;
        let last = typing(cx, vars[n - 1].value.1) is Some;
        lemma_through(d, d1, chk_consts(cx, d, vars, n), before, last);
        let all = forall|i: int| 0 <= i < n ==> typing(cx, (#[trigger] vars[i]).value.1) is Some;
        assert(all == (before && last)) by {
            if before && last {
                assert forall|i: int| 0 <= i < n implies typing(
                    cx,
                    (#[trigger] vars[i]).value.1,
                ) is Some by {
                }
            }
            if all {
                assert(typing(cx, vars[n - 1].value.1) is Some);
            }
        }
    }
}

proof fn lemma_meta_outcome(cx: CompilerContext, d: DiagsV, meta: Sp<Meta>)
    ensures
        outcome(d, chk_meta(cx, d, meta), meta_typed(cx, meta)),
    decreases meta, 0nat,
{
    match meta.value {
        Meta::Scalar(e) => lemma_expr_outcome(cx, d, e),
        Meta::Array(items) => lemma_metas_outcome(cx, d, items@, items@.len()),
        Meta::Object(fields) => {
            lemma_fields_outcome(cx, d, fields.value.0@, fields.value.0@.len());
        },
        Meta::Variant { fields, .. } => {
            lemma_fields_outcome(cx, d, fields.value.0@, fields.value.0@.len());
        },
    }
}

proof fn lemma_metas_outcome(cx: CompilerContext, d: DiagsV, items: Seq<Sp<Meta>>, n: nat)
    ensures
        outcome(d, chk_metas(cx, d, items, n), metas_typed(cx, items, n)),
    decreases items, n,
{
    if n == 0 || n > items.len() {
        lemma_nothing(d);
    } else {
        let m = (n - 1) as nat;
        lemma_metas_outcome(cx, d, items, m);
        let d1 = chk_metas(cx, d, items, m);
        lemma_meta_outcome(cx, d1, items[n - 1]);
        lemma_through(
            d,
            d1,
            chk_metas(cx, d, items, n),
            metas_typed(cx, items, m),
            meta_typed(cx, items[n - 1]),
        );
    }
}

proof fn lemma_fields_outcome(
    cx: CompilerContext,
    d: DiagsV,
    fields: Seq<(Sp<Ident>, Sp<Meta>)>,
    n: nat,
)
    ensures
        outcome(d, chk_fields(cx, d, fields, n), fields_typed(cx, fields, n)),
    decreases fields, n,
{
    if n == 0 || n > fields.len() {
        lemma_nothing(d);
    } else {
        let m = (n - 1) as nat;
        lemma_fields_outcome(cx, d, fields, m);
        let d1 = chk_fields(cx, d, fields, m);
        lemma_meta_outcome(cx, d1, fields[n - 1].1);
        lemma_through(
            d,
            d1,
            chk_fields(cx, d, fields, n),
            fields_typed(cx, fields, m),
            meta_typed(cx, fields[n - 1].1),
        );
    }
}

// -----------------------------------------------------------------------------
// Functions that return

/// Whether a statement has a `return` of the function that it stands in.
pub open spec fn has_return(stmt: Sp<Stmt>) -> bool
    decreases stmt, 0nat,
{
    match stmt.value.kind {
        StmtKind::Item(item) => item_returns(*item),
        StmtKind::CondChain(chain) => {
            ||| some_block_returns(chain.cond_blocks@, chain.cond_blocks@.len())
            ||| chain.else_block matches Some(block) && some_returns(block.0@, block.0@.len())
        },
        StmtKind::While { block, .. } => some_returns(block.0@, block.0@.len()),
        StmtKind::Loop { block, .. } => some_returns(block.0@, block.0@.len()),
        StmtKind::Block(block) => some_returns(block.0@, block.0@.len()),
        StmtKind::Times { block, .. } => some_returns(block.0@, block.0@.len()),
        StmtKind::Return { .. } => true,
        _ => false,
    }
}

/// Whether one of the first `n` statements has a `return`.
pub open spec fn some_returns(stmts: Seq<Sp<Stmt>>, n: nat) -> bool
    decreases stmts, n,
{
    if n == 0 || n > stmts.len() {
        false
    } else {
        some_returns(stmts, (n - 1) as nat) || has_return(stmts[n - 1])
    }
}

/// Whether one of the first `n` conditional blocks has a `return`.
pub open spec fn some_block_returns(blocks: Seq<CondBlock>, n: nat) -> bool
    decreases blocks, n,
{
    if n == 0 || n > blocks.len() {
        false
    } else {
        ||| some_block_returns(blocks, (n - 1) as nat)
        ||| some_returns(blocks[n - 1].block.0@, blocks[n - 1].block.0@.len())
    }
}

/// Whether an item has a `return` of the function around it.  One inside a function does not.
pub open spec fn item_returns(item: Sp<Item>) -> bool
    decreases item, 0nat,
{
    match item.value {
        Item::AnmScript { code, .. } => some_returns(code.0@, code.0@.len()),
        Item::Timeline { code, .. } => some_returns(code.0@, code.0@.len()),
        _ => false,
    }
}

/// The functions around a place behind code that has a `return` or has none.
spec fn behind(stack: Seq<FuncState>, returned: bool) -> Seq<FuncState> {
    if returned && stack.len() > 0 {
        stack.update(
            stack.len() - 1,
            (FuncState { missing_return: false, ..stack[stack.len() - 1] }),
        )
    } else {
        stack
    }
}

/// The definitions of the functions around a place.
pub open spec fn names(stack: Seq<FuncState>) -> Seq<Option<DefId>> {
    Seq::new(stack.len(), |i: int| stack[i].func_def_id)
}

proof fn lemma_behind(stack: Seq<FuncState>, first: bool, second: bool)
    ensures
        behind(behind(stack, first), second) == behind(stack, first || second),
        behind(stack, false) == stack,
        names(behind(stack, first)) == names(stack),
        behind(stack, first).len() == stack.len(),
{
    assert(behind(behind(stack, first), second) =~= behind(stack, first || second));
    assert(names(behind(stack, first)) =~= names(stack));
}

/// What a check leaves behind.
spec fn leaves(before: ChkSt, after: ChkSt, ok: bool, returned: bool) -> bool {
    &&& outcome(before.d, after.d, ok)
    &&& after.stack == behind(before.stack, returned)
    &&& names(after.stack) == names(before.stack)
}

proof fn lemma_leaves(
    a: ChkSt,
    b: ChkSt,
    c: ChkSt,
    first: bool,
    second: bool,
    left: bool,
    right: bool,
)
    requires
        leaves(a, b, first, left),
        leaves(b, c, second, right),
    ensures
        leaves(a, c, first && second, left || right),
{
    lemma_through(a.d, b.d, c.d, first, second);
    lemma_behind(a.stack, left, right);
}

proof fn lemma_leaves_stack(a: ChkSt, d: DiagsV, ok: bool)
    requires
        outcome(a.d, d, ok),
    ensures
        leaves(a, (ChkSt { d, ..a }), ok, false),
{
    lemma_behind(a.stack, false, false);
}

proof fn lemma_stmts_outcome(cx: CompilerContext, st: ChkSt, stmts: Seq<Sp<Stmt>>, n: nat)
    ensures
        leaves(
            st,
            chk_stmts(cx, st, stmts, n),
            stmts_typed(cx, names(st.stack), stmts, n),
            some_returns(stmts, n),
        ),
    decreases stmts, n,
{
    if n == 0 || n > stmts.len() {
        lemma_nothing(st.d);
        lemma_leaves_stack(st, st.d, true);
        assert((ChkSt { d: st.d, ..st }) == st);
    } else {
        let m = (n - 1) as nat;
        lemma_stmts_outcome(cx, st, stmts, m);
        let st1 = chk_stmts(cx, st, stmts, m);
        lemma_stmt_outcome(cx, st1, stmts[n - 1]);
        lemma_leaves(
            st,
            st1,
            chk_stmts(cx, st, stmts, n),
            stmts_typed(cx, names(st.stack), stmts, m),
            stmt_typed(cx, names(st.stack), stmts[n - 1]),
            some_returns(stmts, m),
            has_return(stmts[n - 1]),
        );
    }
}

proof fn lemma_blocks_outcome(cx: CompilerContext, st: ChkSt, blocks: Seq<CondBlock>, n: nat)
    ensures
        leaves(
            st,
            chk_cond_blocks(cx, st, blocks, n),
            cond_blocks_typed(cx, names(st.stack), blocks, n),
            some_block_returns(blocks, n),
        ),
    decreases blocks, n,
{
    if n == 0 || n > blocks.len() {
        lemma_nothing(st.d);
        lemma_leaves_stack(st, st.d, true);
        assert((ChkSt { d: st.d, ..st }) == st);
    } else {
        let m = (n - 1) as nat;
        let funcs = names(st.stack);
        lemma_blocks_outcome(cx, st, blocks, m);
        let st1 = chk_cond_blocks(cx, st, blocks, m);
        let cond = blocks[n - 1].cond;
        let body = blocks[n - 1].block.0@;
        lemma_cond_outcome(cx, st1.d, cond);
        let st2 = ChkSt { d: chk_cond(cx, st1.d, cond), ..st1 };
        lemma_leaves_stack(st1, st2.d, cond_typed(cx, cond));
        let ok1 = cond_blocks_typed(cx, funcs, blocks, m);
        let left = some_block_returns(blocks, m);
        lemma_leaves(st, st1, st2, ok1, cond_typed(cx, cond), left, false);
        lemma_stmts_outcome(cx, st2, body, body.len());
        lemma_leaves(
            st,
            st2,
            chk_cond_blocks(cx, st, blocks, n),
            ok1 && cond_typed(cx, cond),
            stmts_typed(cx, funcs, body, body.len()),
            left,
            some_returns(body, body.len()),
        );
    }
}

#[verifier::rlimit(40)]
proof fn lemma_stmt_outcome(cx: CompilerContext, st: ChkSt, stmt: Sp<Stmt>)
    ensures
        leaves(
            st,
            chk_stmt(cx, st, stmt),
            stmt_typed(cx, names(st.stack), stmt),
            has_return(stmt),
        ),
    decreases stmt, 0nat,
{
    let funcs = names(st.stack);
    let out = chk_stmt(cx, st, stmt);
    match stmt.value.kind {
        StmtKind::Item(item) => lemma_item_outcome(cx, st, *item),
        StmtKind::CondJump { cond, .. } => {
            lemma_cond_outcome(cx, st.d, cond);
            lemma_leaves_stack(st, out.d, cond_typed(cx, cond));
        },
        StmtKind::CondChain(chain) => {
            let blocks = chain.cond_blocks@;
            lemma_blocks_outcome(cx, st, blocks, blocks.len());
            let st1 = chk_cond_blocks(cx, st, blocks, blocks.len());
            if let Some(block) = chain.else_block {
                lemma_stmts_outcome(cx, st1, block.0@, block.0@.len());
                lemma_leaves(
                    st,
                    st1,
                    out,
                    cond_blocks_typed(cx, funcs, blocks, blocks.len()),
                    stmts_typed(cx, funcs, block.0@, block.0@.len()),
                    some_block_returns(blocks, blocks.len()),
                    some_returns(block.0@, block.0@.len()),
                );
            }
        },
        StmtKind::While { do_keyword, cond, block, .. } => {
            let ok = cond_typed(cx, cond);
            let body_ok = stmts_typed(cx, funcs, block.0@, block.0@.len());
            let returned = some_returns(block.0@, block.0@.len());
            if do_keyword is Some {
                lemma_cond_outcome(cx, st.d, cond);
                let st1 = ChkSt { d: chk_cond(cx, st.d, cond), ..st };
                lemma_leaves_stack(st, st1.d, ok);
                lemma_stmts_outcome(cx, st1, block.0@, block.0@.len());
                lemma_leaves(st, st1, out, ok, body_ok, false, returned);
            } else {
                lemma_stmts_outcome(cx, st, block.0@, block.0@.len());
                let st1 = chk_stmts(cx, st, block.0@, block.0@.len());
                lemma_cond_outcome(cx, st1.d, cond);
                lemma_leaves_stack(st1, out.d, ok);
                lemma_leaves(st, st1, out, body_ok, ok, returned, false);
            }
        },
        StmtKind::Loop { block, .. } => lemma_stmts_outcome(cx, st, block.0@, block.0@.len()),
        StmtKind::Block(block) => lemma_stmts_outcome(cx, st, block.0@, block.0@.len()),
        StmtKind::Return { keyword, value } => {
            if st.stack.len() == 0 {
                lemma_error(st.d, TypeDiag::ReturnOutsideFunction { span: keyword.span });
            } else {
                lemma_return_outcome(cx, st, keyword.span, value);
            }
            assert(out.stack =~= behind(st.stack, true));
            lemma_behind(st.stack, true, true);
        },
        StmtKind::Assignment { var, op, value } => {
            lemma_assignment_outcome(cx, st.d, var, op, value);
            lemma_leaves_stack(st, out.d, assignment_typed(cx, var.value, op.value, value));
        },
        StmtKind::Expr(e) => {
            lemma_expr_stmt_outcome(cx, st.d, e);
            lemma_leaves_stack(st, out.d, typing(cx, e) == Some(ExprType::Void));
        },
        StmtKind::Times { clobber, count, block, .. } => {
            let ok = times_typed(cx, clobber, count);
            lemma_times_outcome(cx, st.d, clobber, count);
            let st1 = ChkSt { d: chk_times(cx, st.d, clobber, count), ..st };
            lemma_leaves_stack(st, st1.d, ok);
            lemma_stmts_outcome(cx, st1, block.0@, block.0@.len());
            let body_ok = stmts_typed(cx, funcs, block.0@, block.0@.len());
            lemma_leaves(st, st1, out, ok, body_ok, false, some_returns(block.0@, block.0@.len()));
        },
        StmtKind::Declaration { ty_keyword, vars } => {
            lemma_decls_outcome(cx, st.d, ty_keyword, vars@, vars@.len());
            lemma_leaves_stack(st, out.d, stmt_typed(cx, funcs, stmt));
        },
        StmtKind::CallSub { .. } => {
            lemma_error(st.d, TypeDiag::Unsupported { span: stmt.span });
            lemma_leaves_stack(st, out.d, false);
        },
        _ => {
            lemma_nothing(st.d);
            lemma_leaves_stack(st, st.d, true);
            assert((ChkSt { d: st.d, ..st }) == st);
        },
    }
}

proof fn lemma_item_outcome(cx: CompilerContext, st: ChkSt, item: Sp<Item>)
    ensures
        leaves(
            st,
            chk_item(cx, st, item),
            item_typed(cx, names(st.stack), item),
            item_returns(item),
        ),
    decreases item, 0nat,
{
    let out = chk_item(cx, st, item);
    match item.value {
        Item::Func(func) => {
            let top = func_state(cx, func);
            let inner = ChkSt { stack: st.stack.push(top), ..st };
            assert(names(inner.stack) =~= names(st.stack).push(top.func_def_id));
            let ok = item_typed(cx, names(st.stack), item);
            let (end, returned) = match func.code {
                Some(code) => (
                    chk_stmts(cx, inner, code.0@, code.0@.len()),
                    some_returns(code.0@, code.0@.len()),
                ),
                None => (inner, false),
            };
            match func.code {
                Some(code) => lemma_stmts_outcome(cx, inner, code.0@, code.0@.len()),
                None => {
                    lemma_nothing(st.d);
                    lemma_behind(inner.stack, false, false);
                },
            }
            assert(leaves(inner, end, ok, returned));
            if end.stack.last().missing_return {
                lemma_warning(end.d, item.span);
                lemma_through(st.d, end.d, out.d, ok, true);
            }
            assert(out.stack =~= st.stack);
            lemma_behind(st.stack, false, false);
        },
        Item::AnmScript { code, .. } => lemma_stmts_outcome(cx, st, code.0@, code.0@.len()),
        Item::Timeline { code, .. } => lemma_stmts_outcome(cx, st, code.0@, code.0@.len()),
        Item::Meta { fields, .. } => {
            lemma_fields_outcome(cx, st.d, fields.value.0@, fields.value.0@.len());
            lemma_leaves_stack(st, out.d, item_typed(cx, names(st.stack), item));
        },
        Item::ConstVar { vars, .. } => {
            lemma_consts_outcome(cx, st.d, vars@, vars@.len());
            lemma_leaves_stack(st, out.d, item_typed(cx, names(st.stack), item));
        },
    }
}

proof fn lemma_warning(d: DiagsV, item: Span)
    ensures
        outcome(d, d.push(TypeDiag::MissingReturn { item }), true),
{
    reveal(outcome);
}

proof fn lemma_items_outcome(cx: CompilerContext, st: ChkSt, items: Seq<Sp<Item>>, n: nat)
    requires
        n <= items.len(),
        st.stack.len() == 0,
    ensures
        outcome(
            st.d,
            chk_items(cx, st, items, n).d,
            forall|i: int| 0 <= i < n ==> item_typed(cx, seq![], #[trigger] items[i]),
        ),
        chk_items(cx, st, items, n).stack.len() == 0,
    decreases n,
{
    if n == 0 {
        lemma_nothing(st.d);
    } else {
        lemma_items_outcome(cx, st, items, (n - 1) as nat);
        let st1 = chk_items(cx, st, items, (n - 1) as nat);
        lemma_item_outcome(cx, st1, items[n - 1]);
        assert(names(st1.stack) =~= seq![]);
        let before = forall|i: int|
            0 <= i < n - 1 ==> item_typed(cx, seq![], #[trigger] items[i]);
        let last = item_typed(cx, seq![], items[n - 1]);
        lemma_through(st.d, st1.d, chk_items(cx, st, items, n).d, before, last);
        let all = forall|i: int| 0 <= i < n ==> item_typed(cx, seq![], #[trigger] items[i]);
        assert(all == (before && last)) by {
            if before && last {
                assert forall|i: int| 0 <= i < n implies item_typed(
                    cx,
                    seq![],
                    #[trigger] items[i],
                ) by {
                }
            }
            if all {
                assert(item_typed(cx, seq![], items[n - 1]));
            }
        }
    }
}

// -----------------------------------------------------------------------------

/// A script is checked without an error just if it is well typed: every expression in it has a
/// type, the value of every declared variable and both sides of every assignment agree, every
/// condition is a number, and every function returns what its signature says.
pub proof fn law_script_is_accepted_iff_typed(cx: CompilerContext, node: Node<'_>)
    ensures
        has_error(run_spec(cx, node)) <==> !well_typed(cx, node),
{
    let st = ChkSt { stack: seq![], d: seq![] };
    assert(names(st.stack) =~= seq![]);
    let d = run_spec(cx, node);
    assert(outcome(seq![], d, well_typed(cx, node))) by {
        match node {
            Node::File(file) => lemma_items_outcome(cx, st, file.items@, file.items@.len()),
            Node::Item(item) => lemma_item_outcome(cx, st, *item),
            Node::Meta(meta) => lemma_meta_outcome(cx, st.d, *meta),
            Node::RootBlock(block) => lemma_stmts_outcome(cx, st, block.0@, block.0@.len()),
            Node::Stmt(stmt) => lemma_stmt_outcome(cx, st, *stmt),
            Node::Stmts(stmts) => lemma_stmts_outcome(cx, st, stmts@, stmts@.len()),
            Node::Expr(e) => lemma_expr_outcome(cx, st.d, *e),
        }
    }
    reveal(outcome);
    if has_error(d) {
        let i = choose|i: int| 0 <= i < d.len() && is_error(#[trigger] d[i]);
        assert(is_error(d[i]));
    }
}

/// What is said of a function is what is said of its code, and behind that a warning just if the
/// function has a value and its code has no `return`.
pub proof fn law_missing_return_is_said(cx: CompilerContext, st: ChkSt, item: Sp<Item>)
    requires
        item.value matches Item::Func(func) && func.code is Some,
    ensures
        ({
            let func = item.value->Func_0;
            let code = (func.code->0).0@;
            let inner = ChkSt { stack: st.stack.push(func_state(cx, func)), ..st };
            let said = chk_stmts(cx, inner, code, code.len()).d;
            let ty = func.ty_keyword.value;
            let valued = ty is Int || ty is Float || ty is String;
            chk_item(cx, st, item).d == if valued && !some_returns(code, code.len()) {
                said.push(TypeDiag::MissingReturn { item: item.span })
            } else {
                said
            }
        }),
        chk_item(cx, st, item).stack == st.stack,
{
    let func = item.value->Func_0;
    let code = (func.code->0).0@;
    let inner = ChkSt { stack: st.stack.push(func_state(cx, func)), ..st };
    lemma_stmts_outcome(cx, inner, code, code.len());
    assert(chk_item(cx, st, item).stack =~= st.stack);
}

} // verus!
