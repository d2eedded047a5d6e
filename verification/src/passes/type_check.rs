//! Performs type-checking on the whole AST.
//!
//! Requires name resolution.
//!
//! The purpose of this pass is to serve as the answer to the question, "when do we generate an
//! error about this?"  Ideally, all errors that can be classified as type errors are reported
//! to the user during this pass.

use crate::ast::visit::{Node, Visitable};
use crate::ast::{
    blob_index, AssignOpKind, BinOpKind, Block, CondBlock, Expr, ExprCall, Item, ItemFunc, Meta,
    OpClass, PseudoArg, PseudoArgKind, ScriptFile, Stmt, StmtKind, TypeKeyword, UnOpKind, Var,
    XcrementOpKind, XcrementOpOrder,
};
use crate::context::{required_params, CompilerContext, DefInfo, Signature, SignatureError};
use crate::game::LanguageKey;
use crate::ident::Ident;
use crate::pos::{Sp, Span, Spanned};
use crate::resolve::{DefId, RegId};
use crate::value::{ExprType, ScalarType, VarType};
use vstd::prelude::*;

verus! {

/// What the type checker has to say about a script.
#[derive(Debug, Copy, Clone, PartialEq, Eq, Structural)]
#[allow(inconsistent_fields)]
pub enum TypeDiag {
    /// Two things that must have one type have two.
    NotSame { left: Span, left_ty: ScalarType, right: Span, right_ty: ScalarType, cause: Span },
    /// Something must have another type than it has.
    NotExact { span: Span, ty: ExprType, expected: ExprType, cause: Span },
    /// Something must be an integer or a float.
    NotNumeric { span: Span, ty: ScalarType, cause: Span },
    /// Something must have a value.
    VoidValue { span: Span, cause: Span },
    /// Something must not have a value.
    NotVoid { span: Span, ty: ScalarType, reason: VoidReason },
    /// "cannot cast a string"
    CastString { span: Span, to: ScalarType },
    /// "variable requires a type prefix", with the register if it is one
    NeedsTypePrefix { span: Span, reg: Option<RegId> },
    /// "cannot supply both normal arguments and an args blob"
    BlobWithArgs { arg: Span, blob: Span },
    /// "signature not known"
    SignatureUnknown { name: Span, language: LanguageKey, opcode: u16 },
    /// "wrong number of arguments"
    WrongArgCount { name: Span, min: usize, max: usize, actual: usize },
    /// An argument of another type than that of a parameter, which is counted from one.
    WrongArgType { arg: Span, ty: ScalarType, name: Span, expected: ScalarType, number: usize },
    /// A name that was not resolved to something of the kind that it must be.
    Unresolved { span: Span },
    /// A `return` that belongs to no function.
    ReturnOutsideFunction { span: Span },
    /// A construct that has no type rules.
    Unsupported { span: Span },
    /// "value-returning function without a return", which is only a warning
    MissingReturn { item: Span },
}

/// Why something must not have a value.
#[derive(Debug, Copy, Clone, PartialEq, Eq, Structural)]
pub enum VoidReason {
    /// "expression statements must be of void type"
    ExpressionStatement,
    /// "expected void type"
    Expected,
}

/// Diagnostics in the order in which they were found.
pub type DiagsV = Seq<TypeDiag>;

pub open spec fn is_error(d: TypeDiag) -> bool {
    !(d is MissingReturn)
}

/// Whether there is an error among diagnostics.
pub open spec fn has_error(d: DiagsV) -> bool {
    exists|i: int| 0 <= i < d.len() && is_error(#[trigger] d[i])
}

// =============================================================================
// Requirements

pub open spec fn req_same(
    d: DiagsV,
    types: (ScalarType, ScalarType),
    cause: Span,
    spans: (Span, Span),
) -> (bool, DiagsV) {
    if types.0 == types.1 {
        (true, d)
    } else {
        (
            false,
            d.push(
                TypeDiag::NotSame {
                    left: spans.0,
                    left_ty: types.0,
                    right: spans.1,
                    right_ty: types.1,
                    cause,
                },
            ),
        )
    }
}

pub open spec fn req_exact(d: DiagsV, ty: ExprType, expected: ExprType, cause: Span, span: Span) -> (
    bool,
    DiagsV,
) {
    if ty == expected {
        (true, d)
    } else {
        (false, d.push(TypeDiag::NotExact { span, ty, expected, cause }))
    }
}

pub open spec fn req_scalar(
    d: DiagsV,
    ty: ScalarType,
    expected: ScalarType,
    cause: Span,
    span: Span,
) -> (bool, DiagsV) {
    req_exact(d, ExprType::Value(ty), ExprType::Value(expected), cause, span)
}

pub open spec fn req_numeric(d: DiagsV, ty: ScalarType, cause: Span, span: Span) -> (bool, DiagsV) {
    if ty is String {
        (false, d.push(TypeDiag::NotNumeric { span, ty, cause }))
    } else {
        (true, d)
    }
}

pub open spec fn req_value(d: DiagsV, ty: ExprType, cause: Span, span: Span) -> (
    Option<ScalarType>,
    DiagsV,
) {
    match ty {
        ExprType::Value(ty) => (Some(ty), d),
        ExprType::Void => (None, d.push(TypeDiag::VoidValue { span, cause })),
    }
}

pub open spec fn req_void(d: DiagsV, ty: ExprType, span: Span, reason: VoidReason) -> (
    bool,
    DiagsV,
) {
    match ty {
        ExprType::Value(ty) => (false, d.push(TypeDiag::NotVoid { span, ty, reason })),
        ExprType::Void => (true, d),
    }
}

/// What an operator asks of its operands.
pub open spec fn binop_check_spec(
    d: DiagsV,
    op: Sp<BinOpKind>,
    types: (ScalarType, ScalarType),
    spans: (Span, Span),
) -> (bool, DiagsV) {
    let (ok, d) = if op.value.class_spec() is Arithmetic || op.value.class_spec() is Comparison {
        req_numeric(d, types.0, op.span, spans.0)
    } else {
        req_scalar(d, types.0, ScalarType::Int, op.span, spans.0)
    };
    if ok {
        req_same(d, types, op.span, spans)
    } else {
        (false, d)
    }
}

/// The type of the result of an operator whose first operand has a type.
pub open spec fn binop_result(op: BinOpKind, arg: ScalarType) -> ScalarType {
    if op.class_spec() is Arithmetic {
        arg
    } else {
        ScalarType::Int
    }
}

/// What an operator asks of its operand.
pub open spec fn unop_check_spec(d: DiagsV, op: Sp<UnOpKind>, ty: ScalarType, span: Span) -> (
    bool,
    DiagsV,
) {
    match op.value {
        UnOpKind::Neg => req_numeric(d, ty, op.span, span),
        UnOpKind::Not => req_scalar(d, ty, ScalarType::Int, op.span, span),
        UnOpKind::BitNot => req_scalar(d, ty, ScalarType::Int, op.span, span),
        UnOpKind::CastF => req_scalar(d, ty, ScalarType::Int, op.span, span),
        UnOpKind::CastI => req_scalar(d, ty, ScalarType::Float, op.span, span),
        UnOpKind::Sin => req_scalar(d, ty, ScalarType::Float, op.span, span),
        UnOpKind::Cos => req_scalar(d, ty, ScalarType::Float, op.span, span),
        UnOpKind::Sqrt => req_scalar(d, ty, ScalarType::Float, op.span, span),
        UnOpKind::EncodeI => (false, d.push(TypeDiag::Unsupported { span: op.span })),
        UnOpKind::EncodeF => (false, d.push(TypeDiag::Unsupported { span: op.span })),
    }
}

/// The type of the result of an operator whose operand has a type.
pub open spec fn unop_result(op: UnOpKind, arg: ScalarType) -> ScalarType {
    match op {
        UnOpKind::Neg => arg,
        UnOpKind::Sin => ScalarType::Float,
        UnOpKind::Cos => ScalarType::Float,
        UnOpKind::Sqrt => ScalarType::Float,
        UnOpKind::CastF => ScalarType::Float,
        _ => ScalarType::Int,
    }
}

/// What a pseudo-argument asks of its value.
pub open spec fn pseudo_check_spec(d: DiagsV, kind: Sp<PseudoArgKind>, ty: ScalarType, span: Span) -> (
    bool,
    DiagsV,
) {
    match kind.value {
        PseudoArgKind::Blob => req_scalar(d, ty, ScalarType::String, kind.span, span),
        _ => req_scalar(d, ty, ScalarType::Int, kind.span, span),
    }
}

// =============================================================================
// Expressions

/// What holds of a variable even where it is neither read nor written.
pub open spec fn chk_var_weak(cx: CompilerContext, d: DiagsV, var: Sp<Var>) -> (bool, DiagsV) {
    match cx.inherent_ty_spec(var.value.name) {
        None => (false, d.push(TypeDiag::Unresolved { span: var.span })),
        Some(VarType::Typed(ScalarType::String)) => match var.value.ty_sigil {
            Some(sigil) => (
                false,
                d.push(TypeDiag::CastString { span: var.span, to: sigil.ty_spec() }),
            ),
            None => (true, d),
        },
        Some(_) => (true, d),
    }
}

/// The type of a variable that has none of itself, which is an error.
pub open spec fn prefix_error(cx: CompilerContext, var: Sp<Var>) -> TypeDiag {
    TypeDiag::NeedsTypePrefix {
        span: var.span,
        reg: match cx.var_reg_spec(var.value.name) {
            Some((_, reg)) => Some(reg),
            None => None,
        },
    }
}

/// The type of a variable where it is read or written.
pub open spec fn chk_var(cx: CompilerContext, d: DiagsV, var: Sp<Var>) -> (
    Option<ScalarType>,
    DiagsV,
) {
    let (ok, d) = chk_var_weak(cx, d, var);
    if !ok {
        (None, d)
    } else {
        match cx.read_ty_spec(var.value) {
            Some(VarType::Typed(ty)) => (Some(ty), d),
            _ => (None, d.push(prefix_error(cx, var))),
        }
    }
}

/// The type of an expression, if there is no error in it.
pub open spec fn chk_expr(cx: CompilerContext, d: DiagsV, e: Sp<Expr>) -> (
    Option<ExprType>,
    DiagsV,
)
    decreases e, 0nat,
{
    match e.value {
        Expr::LitFloat { .. } => (Some(ExprType::Value(ScalarType::Float)), d),
        Expr::LitInt { .. } => (Some(ExprType::Value(ScalarType::Int)), d),
        Expr::LitString(_) => (Some(ExprType::Value(ScalarType::String)), d),
        Expr::LabelProperty { .. } => (Some(ExprType::Value(ScalarType::Int)), d),
        Expr::EnumConst { .. } => (Some(ExprType::Value(ScalarType::Int)), d),
        Expr::Var(var) => {
            let (ty, d) = chk_var(cx, d, var);
            (as_value(ty), d)
        },
        Expr::BinOp(a, op, b) => {
            let (a_ty, d) = chk_value(cx, d, *a, op.span);
            let (b_ty, d) = chk_value(cx, d, *b, op.span);
            match (a_ty, b_ty) {
                (Some(x), Some(y)) => {
                    let (ok, d) = binop_check_spec(d, op, (x, y), (a.span, b.span));
                    if ok {
                        (Some(ExprType::Value(binop_result(op.value, x))), d)
                    } else {
                        (None, d)
                    }
                },
                _ => (None, d),
            }
        },
        Expr::UnOp(op, x) => {
            let (ty, d) = chk_value(cx, d, *x, op.span);
            match ty {
                None => (None, d),
                Some(ty) => {
                    let (ok, d) = unop_check_spec(d, op, ty, x.span);
                    if ok {
                        (Some(ExprType::Value(unop_result(op.value, ty))), d)
                    } else {
                        (None, d)
                    }
                },
            }
        },
        Expr::Ternary { cond, question, left, colon, right } => {
            let (left_ty, d) = chk_value(cx, d, *left, question.span);
            let (right_ty, d) = chk_value(cx, d, *right, colon.span);
            let (cond_ty, d) = chk_value(cx, d, *cond, colon.span);
            match cond_ty {
                None => (None, d),
                Some(ty) => {
                    let (ok, d) = req_scalar(d, ty, ScalarType::Int, question.span, cond.span);
                    if !ok {
                        (None, d)
                    } else {
                        match (left_ty, right_ty) {
                            (Some(x), Some(y)) => {
                                let (ok, d) = req_same(
                                    d,
                                    (x, y),
                                    colon.span,
                                    (left.span, right.span),
                                );
                                if ok {
                                    (Some(ExprType::Value(x)), d)
                                } else {
                                    (None, d)
                                }
                            },
                            _ => (None, d),
                        }
                    }
                },
            }
        },
        Expr::Call(call) => chk_call(cx, d, call),
        Expr::XcrementOp { .. } => (None, d.push(TypeDiag::Unsupported { span: e.span })),
        Expr::DiffSwitch(_) => (None, d.push(TypeDiag::Unsupported { span: e.span })),
    }
}

pub open spec fn as_value(ty: Option<ScalarType>) -> Option<ExprType> {
    match ty {
        Some(ty) => Some(ExprType::Value(ty)),
        None => None,
    }
}

/// The type of an expression that must have a value.
pub open spec fn chk_value(cx: CompilerContext, d: DiagsV, e: Sp<Expr>, reason: Span) -> (
    Option<ScalarType>,
    DiagsV,
)
    decreases e, 1nat,
{
    let (ty, d) = chk_expr(cx, d, e);
    match ty {
        None => (None, d),
        Some(ty) => req_value(d, ty, reason, e.span),
    }
}

/// Where the heading of a pseudo-argument is.
pub open spec fn tag_span_spec(p: PseudoArg) -> Span {
    if p.wf() {
        p.at_sign.span.merge_spec(p.eq_sign.span)
    } else {
        p.at_sign.span
    }
}

/// Whether there is no error in the first `n` pseudo-arguments.
pub open spec fn chk_pseudos(
    cx: CompilerContext,
    d: DiagsV,
    pseudos: Seq<Sp<PseudoArg>>,
    n: nat,
) -> (bool, DiagsV)
    decreases pseudos, n,
{
    if n == 0 || n > pseudos.len() {
        (true, d)
    } else {
        let (before, d) = chk_pseudos(cx, d, pseudos, (n - 1) as nat);
        let p = pseudos[n - 1].value;
        let (ty, d) = chk_value(cx, d, p.value, tag_span_spec(p));
        match ty {
            None => (false, d),
            Some(ty) => {
                let (ok, d) = pseudo_check_spec(d, p.kind, ty, p.value.span);
                (before && ok, d)
            },
        }
    }
}

/// Whether there is no error in the first `n` arguments of a call.
pub open spec fn chk_args(
    cx: CompilerContext,
    d: DiagsV,
    args: Seq<Sp<Expr>>,
    siggy: Signature,
    name: Span,
    n: nat,
) -> (bool, DiagsV)
    decreases args, n,
{
    if n == 0 || n > args.len() {
        (true, d)
    } else {
        let (before, d) = chk_args(cx, d, args, siggy, name, (n - 1) as nat);
        let arg = args[n - 1];
        let (ty, d) = chk_value(cx, d, arg, name);
        match ty {
            None => (false, d),
            Some(ty) => match siggy.params@[n - 1].ty.value {
                VarType::Typed(expected) => if ty != expected {
                    (
                        false,
                        d.push(
                            TypeDiag::WrongArgType {
                                arg: arg.span,
                                ty,
                                name,
                                expected,
                                number: n as usize,
                            },
                        ),
                    )
                } else {
                    (before, d)
                },
                VarType::Untyped { .. } => (before, d),
            },
        }
    }
}

/// What a call returns, if there is no error in it.
pub open spec fn chk_call(cx: CompilerContext, d: DiagsV, call: ExprCall) -> (
    Option<ExprType>,
    DiagsV,
)
    decreases call, 0nat,
{
    let pseudos = call.pseudos@;
    let args = call.args@;
    let name = call.name.span;
    let (ok, d) = chk_pseudos(cx, d, pseudos, pseudos.len());
    if !ok {
        (None, d)
    } else {
        match blob_index(pseudos, pseudos.len()) {
            Some(i) => if args.len() > 0 {
                (
                    None,
                    d.push(
                        TypeDiag::BlobWithArgs {
                            arg: args[0].span,
                            blob: pseudos[i].value.value.span,
                        },
                    ),
                )
            } else {
                (Some(ExprType::Void), d)
            },
            None => match cx.signature_spec(call.name.value) {
                Err(SignatureError::InsMissingSig { language, opcode }) => (
                    None,
                    d.push(TypeDiag::SignatureUnknown { name, language, opcode }),
                ),
                Err(SignatureError::NotCallable) => (
                    None,
                    d.push(TypeDiag::Unresolved { span: name }),
                ),
                Ok(siggy) => {
                    let min = required_params(
                        siggy.params@,
                        siggy.params@.len(),
                    );
                    let max = siggy.params@.len();
                    if !(min <= args.len() <= max) {
                        (
                            None,
                            d.push(
                                TypeDiag::WrongArgCount {
                                    name,
                                    min: min as usize,
                                    max: max as usize,
                                    actual: args.len() as usize,
                                },
                            ),
                        )
                    } else {
                        let (ok, d) = chk_args(cx, d, args, siggy, name, args.len());
                        if ok {
                            (Some(siggy.return_ty.value), d)
                        } else {
                            (None, d)
                        }
                    }
                },
            },
        }
    }
}

// =============================================================================
// The checker of expressions

/// Checks expressions and remembers what it has to say.
pub struct ExprTypeChecker<'a> {
    pub ctx: &'a CompilerContext,
    pub diags: Vec<TypeDiag>,
}

impl<'a> ExprTypeChecker<'a> {
    pub fn new(ctx: &'a CompilerContext) -> (r: Self)
        ensures
            r.ctx == ctx,
            r.diags@ == Seq::<TypeDiag>::empty(),
    {
        ExprTypeChecker { ctx, diags: Vec::new() }
    }

    fn emit(&mut self, diag: TypeDiag)
        ensures
            final(self).ctx == old(self).ctx,
            final(self).diags@ == old(self).diags@.push(diag),
    {
        self.diags.push(diag);
    }

    fn require_same(
        &mut self,
        types: (ScalarType, ScalarType),
        cause: Span,
        spans: (Span, Span),
    ) -> (r: bool)
        ensures
            final(self).ctx == old(self).ctx,
            (r, final(self).diags@) == req_same(old(self).diags@, types, cause, spans),
    {
        if types.0 == types.1 {
            true
        } else {
            self.emit(
                TypeDiag::NotSame {
                    left: spans.0,
                    left_ty: types.0,
                    right: spans.1,
                    right_ty: types.1,
                    cause,
                },
            );
            false
        }
    }

    fn require_int(&mut self, ty: ScalarType, cause: Span, value_span: Span) -> (r: bool)
        ensures
            final(self).ctx == old(self).ctx,
            (r, final(self).diags@) == req_scalar(
                old(self).diags@,
                ty,
                ScalarType::Int,
                cause,
                value_span,
            ),
    {
        self._require_exact(ty, ScalarType::Int, cause, value_span)
    }

    fn require_float(&mut self, ty: ScalarType, cause: Span, value_span: Span) -> (r: bool)
        ensures
            final(self).ctx == old(self).ctx,
            (r, final(self).diags@) == req_scalar(
                old(self).diags@,
                ty,
                ScalarType::Float,
                cause,
                value_span,
            ),
    {
        self._require_exact(ty, ScalarType::Float, cause, value_span)
    }

    fn require_string(&mut self, ty: ScalarType, cause: Span, value_span: Span) -> (r: bool)
        ensures
            final(self).ctx == old(self).ctx,
            (r, final(self).diags@) == req_scalar(
                old(self).diags@,
                ty,
                ScalarType::String,
                cause,
                value_span,
            ),
    {
        self._require_exact(ty, ScalarType::String, cause, value_span)
    }

    fn _require_exact(
        &mut self,
        ty: ScalarType,
        expected: ScalarType,
        cause: Span,
        value_span: Span,
    ) -> (r: bool)
        ensures
            final(self).ctx == old(self).ctx,
            (r, final(self).diags@) == req_scalar(
                old(self).diags@,
                ty,
                expected,
                cause,
                value_span,
            ),
    {
        self._require_exact_expr(ExprType::Value(ty), ExprType::Value(expected), cause, value_span)
    }

    fn _require_exact_expr(
        &mut self,
        ty: ExprType,
        expected: ExprType,
        cause: Span,
        value_span: Span,
    ) -> (r: bool)
        ensures
            final(self).ctx == old(self).ctx,
            (r, final(self).diags@) == req_exact(
                old(self).diags@,
                ty,
                expected,
                cause,
                value_span,
            ),
    {
        if ty == expected {
            true
        } else {
            self.emit(TypeDiag::NotExact { span: value_span, ty, expected, cause });
            false
        }
    }

    /// Require int or float.
    fn require_numeric(&mut self, ty: ScalarType, cause: Span, value_span: Span) -> (r: bool)
        ensures
            final(self).ctx == old(self).ctx,
            (r, final(self).diags@) == req_numeric(old(self).diags@, ty, cause, value_span),
    {
        match ty {
            ScalarType::Int => true,
            ScalarType::Float => true,
            ScalarType::String => {
                self.emit(TypeDiag::NotNumeric { span: value_span, ty, cause });
                false
            },
        }
    }

    /// Reject void types.
    fn require_value(&mut self, ty: ExprType, cause: Span, span: Span) -> (r: Option<ScalarType>)
        ensures
            final(self).ctx == old(self).ctx,
            (r, final(self).diags@) == req_value(old(self).diags@, ty, cause, span),
    {
        match ty {
            ExprType::Value(ty) => Some(ty),
            ExprType::Void => {
                self.emit(TypeDiag::VoidValue { span, cause });
                None
            },
        }
    }

    fn require_void(&mut self, ty: ExprType, span: Span, reason: VoidReason) -> (r: bool)
        ensures
            final(self).ctx == old(self).ctx,
            (r, final(self).diags@) == req_void(old(self).diags@, ty, span, reason),
    {
        match ty {
            ExprType::Value(ty) => {
                self.emit(TypeDiag::NotVoid { span, ty, reason });
                false
            },
            ExprType::Void => true,
        }
    }

    fn binop_check(
        &mut self,
        op: Sp<BinOpKind>,
        arg_tys: (ScalarType, ScalarType),
        arg_spans: (Span, Span),
    ) -> (r: bool)
        ensures
            final(self).ctx == old(self).ctx,
            (r, final(self).diags@) == binop_check_spec(old(self).diags@, op, arg_tys, arg_spans),
    {
        let ok = match op.value.class() {
            OpClass::Arithmetic | OpClass::Comparison => self.require_numeric(
                arg_tys.0,
                op.span,
                arg_spans.0,
            ),
            _ => self.require_int(arg_tys.0, op.span, arg_spans.0),
        };
        // (we do this AFTER the other check because that yields more sensible errors; e.g.
        //  `"lol" - 3` should complain about the string, not about the type mismatch)
        ok && self.require_same(arg_tys, op.span, arg_spans)
    }

    fn unop_check(&mut self, op: Sp<UnOpKind>, arg_ty: ScalarType, arg_span: Span) -> (r: bool)
        ensures
            final(self).ctx == old(self).ctx,
            (r, final(self).diags@) == unop_check_spec(old(self).diags@, op, arg_ty, arg_span),
    {
        match op.value {
            UnOpKind::Neg => self.require_numeric(arg_ty, op.span, arg_span),
            UnOpKind::CastF | UnOpKind::Not | UnOpKind::BitNot => self.require_int(
                arg_ty,
                op.span,
                arg_span,
            ),
            UnOpKind::CastI | UnOpKind::Sin | UnOpKind::Cos | UnOpKind::Sqrt => self.require_float(
                arg_ty,
                op.span,
                arg_span,
            ),
            UnOpKind::EncodeI | UnOpKind::EncodeF => {
                self.emit(TypeDiag::Unsupported { span: op.span });
                false
            },
        }
    }

    fn pseudo_check(&mut self, kind: Sp<PseudoArgKind>, value_ty: ScalarType, value_span: Span) -> (r:
        bool)
        ensures
            final(self).ctx == old(self).ctx,
            (r, final(self).diags@) == pseudo_check_spec(
                old(self).diags@,
                kind,
                value_ty,
                value_span,
            ),
    {
        match kind.value {
            PseudoArgKind::Pop | PseudoArgKind::ExtraArg | PseudoArgKind::Mask => self.require_int(
                value_ty,
                kind.span,
                value_span,
            ),
            PseudoArgKind::Blob => self.require_string(value_ty, kind.span, value_span),
        }
    }

    /// Weaker version of [`Self::check_var`] that applies even in places where the variable is
    /// neither read nor written, such as in `int x;`.
    fn check_var_weak(&mut self, var: &Sp<Var>) -> (r: bool)
        ensures
            final(self).ctx == old(self).ctx,
            (r, final(self).diags@) == chk_var_weak(*old(self).ctx, old(self).diags@, *var),
    {
        match self.ctx.var_inherent_ty_from_ast(&var.value) {
            None => {
                self.emit(TypeDiag::Unresolved { span: var.span });
                false
            },
            // these can't have sigils
            Some(VarType::Typed(ScalarType::String)) => match var.value.ty_sigil {
                None => true,
                Some(sigil) => {
                    self.emit(TypeDiag::CastString { span: var.span, to: sigil.ty() });
                    false
                },
            },
            // no restrictions on these
            Some(_) => true,
        }
    }

    /// Complain about a variable whose type is not known.
    fn emit_prefix_error(&mut self, var: &Sp<Var>)
        ensures
            final(self).ctx == old(self).ctx,
            final(self).diags@ == old(self).diags@.push(prefix_error(*old(self).ctx, *var)),
    {
        let reg = match self.ctx.var_reg_from_ast(&var.value.name) {
            Some((_, reg)) => Some(reg),
            None => None,
        };
        self.emit(TypeDiag::NeedsTypePrefix { span: var.span, reg });
    }

    /// Check a variable that's actually being used in some way (read or written to).
    fn check_var(&mut self, var: &Sp<Var>) -> (r: Option<ScalarType>)
        ensures
            final(self).ctx == old(self).ctx,
            (r, final(self).diags@) == chk_var(*old(self).ctx, old(self).diags@, *var),
    {
        if !self.check_var_weak(var) {
            return None;
        }
        match self.ctx.var_read_ty_from_ast(&var.value) {
            Some(VarType::Typed(ty)) => Some(ty),
            _ => {
                self.emit_prefix_error(var);
                None
            },
        }
    }

    /// Fully check an expression and all subexpressions, and return the type.
    pub fn check_expr(&mut self, expr: &Sp<Expr>) -> (r: Option<ExprType>)
        ensures
            final(self).ctx == old(self).ctx,
            (r, final(self).diags@) == chk_expr(*old(self).ctx, old(self).diags@, *expr),
        decreases *expr, 0nat,
    {
        match &expr.value {
            Expr::LitFloat { .. } => Some(ExprType::Value(ScalarType::Float)),
            Expr::LitInt { .. } => Some(ExprType::Value(ScalarType::Int)),
            Expr::LitString(_) => Some(ExprType::Value(ScalarType::String)),
            Expr::LabelProperty { .. } => Some(ExprType::Value(ScalarType::Int)),
            Expr::EnumConst { .. } => Some(ExprType::Value(ScalarType::Int)),
            Expr::Var(var) => match self.check_var(var) {
                Some(ty) => Some(ExprType::Value(ty)),
                None => None,
            },
            Expr::BinOp(a, op, b) => {
                let a_ty = self.check_expr_as_value(&**a, op.span);
                let b_ty = self.check_expr_as_value(&**b, op.span);
                match (a_ty, b_ty) {
                    (Some(x), Some(y)) => {
                        if self.binop_check(*op, (x, y), (a.span, b.span)) {
                            Some(ExprType::Value(binop_ty_of(op.value, x)))
                        } else {
                            None
                        }
                    },
                    _ => None,
                }
            },
            Expr::UnOp(op, x) => {
                let ty = match self.check_expr_as_value(&**x, op.span) {
                    Some(ty) => ty,
                    None => return None,
                };
                if self.unop_check(*op, ty, x.span) {
                    Some(ExprType::Value(unop_ty_of(op.value, ty)))
                } else {
                    None
                }
            },
            Expr::Ternary { cond, question, left, colon, right } => {
                let left_ty = self.check_expr_as_value(&**left, question.span);
                let right_ty = self.check_expr_as_value(&**right, colon.span);
                let cond_ty = match self.check_expr_as_value(&**cond, colon.span) {
                    Some(ty) => ty,
                    None => return None,
                };
                if !self.require_int(cond_ty, question.span, cond.span) {
                    return None;
                }
                match (left_ty, right_ty) {
                    (Some(x), Some(y)) => {
                        if self.require_same((x, y), colon.span, (left.span, right.span)) {
                            Some(ExprType::Value(x))
                        } else {
                            None
                        }
                    },
                    _ => None,
                }
            },
            Expr::Call(call) => self.check_expr_call(call),
            Expr::XcrementOp { .. } => {
                self.emit(TypeDiag::Unsupported { span: expr.span });
                None
            },
            Expr::DiffSwitch(_) => {
                self.emit(TypeDiag::Unsupported { span: expr.span });
                None
            },
        }
    }

    fn check_expr_as_value(&mut self, expr: &Sp<Expr>, value_reason: Span) -> (r: Option<ScalarType>)
        ensures
            final(self).ctx == old(self).ctx,
            (r, final(self).diags@) == chk_value(
                *old(self).ctx,
                old(self).diags@,
                *expr,
                value_reason,
            ),
        decreases *expr, 1nat,
    {
        match self.check_expr(expr) {
            Some(ty) => self.require_value(ty, value_reason, expr.span),
            None => None,
        }
    }

    fn check_pseudos(&mut self, pseudos: &Vec<Sp<PseudoArg>>) -> (r: bool)
        ensures
            final(self).ctx == old(self).ctx,
            (r, final(self).diags@) == chk_pseudos(
                *old(self).ctx,
                old(self).diags@,
                pseudos@,
                pseudos@.len(),
            ),
        decreases *pseudos, 0nat,
    {
        let mut all_ok = true;
        let mut i: usize = 0;
        while i < pseudos.len()
            invariant
                i <= pseudos@.len(),
                self.ctx == old(self).ctx,
                (all_ok, self.diags@) == chk_pseudos(
                    *old(self).ctx,
                    old(self).diags@,
                    pseudos@,
                    i as nat,
                ),
            decreases pseudos@.len() - i,
        {
            let pseudo = &pseudos[i].value;
            let tag = tag_span_of(pseudo);
            assert(decreases_to!(*pseudos => pseudos@[i as int].value.value));
            match self.check_expr_as_value(&pseudo.value, tag) {
                Some(ty) => {
                    let ok = self.pseudo_check(pseudo.kind, ty, pseudo.value.span);
                    all_ok = all_ok && ok;
                },
                None => {
                    all_ok = false;
                },
            }
            i = i + 1;
        }
        all_ok
    }

    fn check_args(&mut self, args: &Vec<Sp<Expr>>, siggy: &Signature, name: Span) -> (r: bool)
        requires
            args@.len() <= siggy.params@.len(),
        ensures
            final(self).ctx == old(self).ctx,
            (r, final(self).diags@) == chk_args(
                *old(self).ctx,
                old(self).diags@,
                args@,
                *siggy,
                name,
                args@.len(),
            ),
        decreases *args, 0nat,
    {
        let mut all_ok = true;
        let mut i: usize = 0;
        while i < args.len()
            invariant
                i <= args@.len(),
                args@.len() <= siggy.params@.len(),
                self.ctx == old(self).ctx,
                (all_ok, self.diags@) == chk_args(
                    *old(self).ctx,
                    old(self).diags@,
                    args@,
                    *siggy,
                    name,
                    i as nat,
                ),
            decreases args@.len() - i,
        {
            let arg = &args[i];
            assert(decreases_to!(*args => args@[i as int]));
            match self.check_expr_as_value(arg, name) {
                Some(ty) => {
                    if let VarType::Typed(expected) = siggy.params[i].ty.value {
                        if ty != expected {
                            self.emit(
                                TypeDiag::WrongArgType {
                                    arg: arg.span,
                                    ty,
                                    name,
                                    expected,
                                    number: i + 1,
                                },
                            );
                            all_ok = false;
                        }
                    }
                },
                None => {
                    all_ok = false;
                },
            }
            i = i + 1;
        }
        all_ok
    }

    /// Check a function call, and get its return type.
    fn check_expr_call(&mut self, call: &ExprCall) -> (r: Option<ExprType>)
        ensures
            final(self).ctx == old(self).ctx,
            (r, final(self).diags@) == chk_call(*old(self).ctx, old(self).diags@, *call),
        decreases *call, 0nat,
    {
        let name = call.name.span;
        // type check pseudos
        if !self.check_pseudos(&call.pseudos) {
            return None;
        }
        // '@blob=' is incompatible with normal args
        if let Some(blob) = call.blob() {
            if call.args.len() > 0 {
                self.emit(
                    TypeDiag::BlobWithArgs {
                        arg: call.args[0].span,
                        blob: blob.value.value.span,
                    },
                );
                return None;
            }
            // Since there are no normal args to type check, we are done.
            return Some(ExprType::Void);
        }
        // Type-check normal args.
        let ctx = self.ctx;
        let siggy = match ctx.func_signature_from_ast(&call.name.value) {
            Ok(siggy) => siggy,
            Err(SignatureError::InsMissingSig { language, opcode }) => {
                self.emit(TypeDiag::SignatureUnknown { name, language, opcode });
                return None;
            },
            Err(SignatureError::NotCallable) => {
                self.emit(TypeDiag::Unresolved { span: name });
                return None;
            },
        };
        let min: usize = siggy.min_args();
        let max: usize = siggy.max_args();
        let actual: usize = call.args.len();
        if !(min <= actual && actual <= max) {
            self.emit(TypeDiag::WrongArgCount { name, min, max, actual });
            return None;
        }
        if self.check_args(&call.args, siggy, name) {
            Some(siggy.return_ty.value)
        } else {
            None
        }
    }
}

/// Where the heading of a pseudo-argument is.
fn tag_span_of(p: &PseudoArg) -> (r: Span)
    ensures
        r == tag_span_spec(*p),
{
    let (a, b) = (p.at_sign.span, p.eq_sign.span);
    if a.file_id == b.file_id && a.start.0 <= a.end.0 && b.start.0 <= b.end.0 {
        p.tag_span()
    } else {
        a
    }
}

fn binop_ty_of(op: BinOpKind, arg: ScalarType) -> (r: ScalarType)
    ensures
        r == binop_result(op, arg),
{
    match op.class() {
        OpClass::Arithmetic => arg,
        _ => ScalarType::Int,
    }
}

fn unop_ty_of(op: UnOpKind, arg: ScalarType) -> (r: ScalarType)
    ensures
        r == unop_result(op, arg),
{
    match op {
        UnOpKind::Neg => arg,
        UnOpKind::Sin | UnOpKind::Cos | UnOpKind::Sqrt | UnOpKind::CastF => ScalarType::Float,
        _ => ScalarType::Int,
    }
}

// =============================================================================
// Statements

/// A function whose body is being checked.
#[derive(Debug, Copy, Clone, PartialEq, Eq, Structural)]
pub struct FuncState {
    /// What the name of the function stands for, if it was resolved.
    pub func_def_id: Option<DefId>,
    /// Whether a value is still to be returned.
    pub missing_return: bool,
}

/// The state of the checker: the functions around a place, and the diagnostics.
#[verifier::ext_equal]
pub ghost struct ChkSt {
    pub stack: Seq<FuncState>,
    pub d: DiagsV,
}

/// What a condition says of a number.
pub open spec fn chk_cond(cx: CompilerContext, d: DiagsV, cond: Sp<Expr>) -> DiagsV {
    let (ty, d) = match cond.value {
        Expr::XcrementOp { op, order, var } => if op.value is Dec && order is Pre {
            chk_var(cx, d, var)
        } else {
            chk_value(cx, d, cond, cond.span)
        },
        _ => chk_value(cx, d, cond, cond.span),
    };
    match ty {
        None => d,
        Some(ty) => req_scalar(d, ty, ScalarType::Int, cond.span, cond.span).1,
    }
}

pub open spec fn chk_assignment(
    cx: CompilerContext,
    d: DiagsV,
    var: Sp<Var>,
    op: Sp<AssignOpKind>,
    value: Sp<Expr>,
) -> DiagsV {
    let (var_ty, d) = chk_var(cx, d, var);
    let (value_ty, d) = chk_value(cx, d, value, op.span);
    match (var_ty, value_ty) {
        (Some(x), Some(y)) => match op.value.corresponding_binop_spec() {
            None => req_same(d, (x, y), op.span, (var.span, value.span)).1,
            Some(binop) => binop_check_spec(
                d,
                Spanned { span: op.span, value: binop },
                (x, y),
                (var.span, value.span),
            ).1,
        },
        _ => d,
    }
}

pub open spec fn chk_expr_stmt(cx: CompilerContext, d: DiagsV, e: Sp<Expr>) -> DiagsV {
    let (ty, d) = chk_expr(cx, d, e);
    match ty {
        None => d,
        Some(ty) => req_void(d, ty, e.span, VoidReason::ExpressionStatement).1,
    }
}

pub open spec fn chk_times(
    cx: CompilerContext,
    d: DiagsV,
    clobber: Option<Sp<Var>>,
    count: Sp<Expr>,
) -> DiagsV {
    let (ty, d) = chk_value(cx, d, count, count.span);
    match ty {
        None => d,
        Some(count_ty) => {
            let (ok, d) = req_scalar(d, count_ty, ScalarType::Int, count.span, count.span);
            match (ok, clobber) {
                (true, Some(clobber)) => {
                    let (ty, d) = chk_var(cx, d, clobber);
                    match ty {
                        None => d,
                        Some(ty) => req_same(
                            d,
                            (ty, count_ty),
                            count.span,
                            (clobber.span, count.span),
                        ).1,
                    }
                },
                _ => d,
            }
        },
    }
}

/// What a function returns, if it was resolved to one.
pub open spec fn return_ty_spec(cx: CompilerContext, def: Option<DefId>) -> Option<Sp<ExprType>> {
    match def {
        Some(def) => if cx.defs.infos@.contains_key(def.0) {
            match cx.defs.infos@[def.0] {
                DefInfo::Func { siggy } => Some(siggy.return_ty),
                _ => None,
            }
        } else {
            None
        },
        None => None,
    }
}

pub open spec fn chk_return(
    cx: CompilerContext,
    st: ChkSt,
    keyword: Span,
    value: Option<Sp<Expr>>,
) -> ChkSt {
    if st.stack.len() == 0 {
        ChkSt { d: st.d.push(TypeDiag::ReturnOutsideFunction { span: keyword }), ..st }
    } else {
        let top = st.stack.last();
        let stack = st.stack.drop_last().push(FuncState { missing_return: false, ..top });
        let d = match return_ty_spec(cx, top.func_def_id) {
            None => st.d.push(TypeDiag::Unresolved { span: keyword }),
            Some(expected) => match value {
                None => req_exact(
                    st.d,
                    ExprType::Void,
                    expected.value,
                    expected.span,
                    keyword,
                ).1,
                Some(value) => {
                    let (ty, d) = chk_value(cx, st.d, value, keyword);
                    match ty {
                        None => d,
                        Some(ty) => req_exact(
                            d,
                            ExprType::Value(ty),
                            expected.value,
                            expected.span,
                            value.span,
                        ).1,
                    }
                },
            },
        };
        ChkSt { stack, d }
    }
}

/// What a declaration of one variable asks for.
pub open spec fn chk_decl(
    cx: CompilerContext,
    d: DiagsV,
    keyword: Sp<TypeKeyword>,
    var: Sp<Var>,
    value: Option<Sp<Expr>>,
) -> DiagsV {
    let (ok, d) = chk_var_weak(cx, d, var);
    if !ok {
        d
    } else {
        // forbid 'int %x;'
        let (ok, d) = match keyword.value.var_ty_spec() {
            VarType::Untyped { .. } => (true, d),
            VarType::Typed(decl_ty) => match cx.read_ty_spec(var.value) {
                Some(VarType::Typed(var_ty)) => req_scalar(
                    d,
                    decl_ty,
                    var_ty,
                    keyword.span,
                    var.span,
                ),
                _ => (false, d.push(prefix_error(cx, var))),
            },
        };
        match (ok, value) {
            (true, Some(value)) => {
                let (var_ty, d) = chk_var(cx, d, var);
                match var_ty {
                    None => d,
                    Some(var_ty) => {
                        let (ty, d) = chk_value(cx, d, value, value.span);
                        match ty {
                            None => d,
                            Some(ty) => req_scalar(d, ty, var_ty, keyword.span, value.span).1,
                        }
                    },
                }
            },
            _ => d,
        }
    }
}

pub open spec fn chk_decls(
    cx: CompilerContext,
    d: DiagsV,
    keyword: Sp<TypeKeyword>,
    vars: Seq<Sp<(Sp<Var>, Option<Sp<Expr>>)>>,
    n: nat,
) -> DiagsV
    decreases n,
{
    if n == 0 {
        d
    } else {
        let d = chk_decls(cx, d, keyword, vars, (n - 1) as nat);
        chk_decl(cx, d, keyword, vars[n - 1].value.0, vars[n - 1].value.1)
    }
}

pub open spec fn chk_stmt(cx: CompilerContext, st: ChkSt, stmt: Sp<Stmt>) -> ChkSt
    decreases stmt, 0nat,
{
    match stmt.value.kind {
        StmtKind::Item(item) => chk_item(cx, st, *item),
        StmtKind::Jump(_) => st,
        StmtKind::CondJump { cond, .. } => ChkSt { d: chk_cond(cx, st.d, cond), ..st },
        StmtKind::CondChain(chain) => {
            let st = chk_cond_blocks(cx, st, chain.cond_blocks@, chain.cond_blocks@.len());
            match chain.else_block {
                Some(block) => chk_stmts(cx, st, block.0@, block.0@.len()),
                None => st,
            }
        },
        StmtKind::While { do_keyword, cond, block, .. } => if do_keyword is Some {
            let st = ChkSt { d: chk_cond(cx, st.d, cond), ..st };
            chk_stmts(cx, st, block.0@, block.0@.len())
        } else {
            let st = chk_stmts(cx, st, block.0@, block.0@.len());
            ChkSt { d: chk_cond(cx, st.d, cond), ..st }
        },
        StmtKind::Loop { block, .. } => chk_stmts(cx, st, block.0@, block.0@.len()),
        StmtKind::Block(block) => chk_stmts(cx, st, block.0@, block.0@.len()),
        StmtKind::Return { keyword, value } => chk_return(cx, st, keyword.span, value),
        StmtKind::Assignment { var, op, value } => ChkSt {
            d: chk_assignment(cx, st.d, var, op, value),
            ..st
        },
        StmtKind::Expr(e) => ChkSt { d: chk_expr_stmt(cx, st.d, e), ..st },
        StmtKind::Times { clobber, count, block, .. } => {
            let st = ChkSt { d: chk_times(cx, st.d, clobber, count), ..st };
            chk_stmts(cx, st, block.0@, block.0@.len())
        },
        StmtKind::Declaration { ty_keyword, vars } => ChkSt {
            d: chk_decls(cx, st.d, ty_keyword, vars@, vars@.len()),
            ..st
        },
        StmtKind::CallSub { .. } => ChkSt {
            d: st.d.push(TypeDiag::Unsupported { span: stmt.span }),
            ..st
        },
        _ => st,
    }
}

/// The state behind the first `n` statements.
pub open spec fn chk_stmts(cx: CompilerContext, st: ChkSt, stmts: Seq<Sp<Stmt>>, n: nat) -> ChkSt
    decreases stmts, n,
{
    if n == 0 || n > stmts.len() {
        st
    } else {
        chk_stmt(cx, chk_stmts(cx, st, stmts, (n - 1) as nat), stmts[n - 1])
    }
}

/// The state behind the first `n` conditional blocks.
pub open spec fn chk_cond_blocks(
    cx: CompilerContext,
    st: ChkSt,
    blocks: Seq<CondBlock>,
    n: nat,
) -> ChkSt
    decreases blocks, n,
{
    if n == 0 || n > blocks.len() {
        st
    } else {
        let st = chk_cond_blocks(cx, st, blocks, (n - 1) as nat);
        let st = ChkSt { d: chk_cond(cx, st.d, blocks[n - 1].cond), ..st };
        chk_stmts(cx, st, blocks[n - 1].block.0@, blocks[n - 1].block.0@.len())
    }
}

/// The functions around the body of a function.
pub open spec fn func_state(cx: CompilerContext, func: ItemFunc) -> FuncState {
    FuncState {
        func_def_id: cx.def_spec(func.ident.value),
        missing_return: func.ty_keyword.value.expr_ty_spec() is Value,
    }
}

pub open spec fn chk_item(cx: CompilerContext, st: ChkSt, item: Sp<Item>) -> ChkSt
    decreases item, 0nat,
{
    match item.value {
        Item::Func(func) => {
            let inner = ChkSt { stack: st.stack.push(func_state(cx, func)), ..st };
            let inner = match func.code {
                Some(code) => chk_stmts(cx, inner, code.0@, code.0@.len()),
                None => inner,
            };
            ChkSt {
                stack: inner.stack.drop_last(),
                d: if inner.stack.last().missing_return {
                    inner.d.push(TypeDiag::MissingReturn { item: item.span })
                } else {
                    inner.d
                },
            }
        },
        Item::AnmScript { code, .. } => chk_stmts(cx, st, code.0@, code.0@.len()),
        Item::Timeline { code, .. } => chk_stmts(cx, st, code.0@, code.0@.len()),
        Item::Meta { fields, .. } => ChkSt {
            d: chk_fields(cx, st.d, fields.value.0@, fields.value.0@.len()),
            ..st
        },
        Item::ConstVar { vars, .. } => ChkSt {
            d: chk_consts(cx, st.d, vars@, vars@.len()),
            ..st
        },
    }
}

pub open spec fn chk_items(cx: CompilerContext, st: ChkSt, items: Seq<Sp<Item>>, n: nat) -> ChkSt
    decreases n,
{
    if n == 0 {
        st
    } else {
        chk_item(cx, chk_items(cx, st, items, (n - 1) as nat), items[n - 1])
    }
}

pub open spec fn chk_consts(
    cx: CompilerContext,
    d: DiagsV,
    vars: Seq<Sp<(Sp<Var>, Sp<Expr>)>>,
    n: nat,
) -> DiagsV
    decreases n,
{
    if n == 0 {
        d
    } else {
        chk_expr(cx, chk_consts(cx, d, vars, (n - 1) as nat), vars[n - 1].value.1).1
    }
}

pub open spec fn chk_meta(cx: CompilerContext, d: DiagsV, meta: Sp<Meta>) -> DiagsV
    decreases meta, 0nat,
{
    match meta.value {
        Meta::Scalar(e) => chk_expr(cx, d, e).1,
        Meta::Array(items) => chk_metas(cx, d, items@, items@.len()),
        Meta::Object(fields) => chk_fields(cx, d, fields.value.0@, fields.value.0@.len()),
        Meta::Variant { fields, .. } => chk_fields(
            cx,
            d,
            fields.value.0@,
            fields.value.0@.len(),
        ),
    }
}

pub open spec fn chk_metas(cx: CompilerContext, d: DiagsV, items: Seq<Sp<Meta>>, n: nat) -> DiagsV
    decreases items, n,
{
    if n == 0 || n > items.len() {
        d
    } else {
        chk_meta(cx, chk_metas(cx, d, items, (n - 1) as nat), items[n - 1])
    }
}

pub open spec fn chk_fields(
    cx: CompilerContext,
    d: DiagsV,
    fields: Seq<(Sp<Ident>, Sp<Meta>)>,
    n: nat,
) -> DiagsV
    decreases fields, n,
{
    if n == 0 || n > fields.len() {
        d
    } else {
        chk_meta(cx, chk_fields(cx, d, fields, (n - 1) as nat), fields[n - 1].1)
    }
}

/// The state behind a tree of any kind.
pub open spec fn chk_node(cx: CompilerContext, st: ChkSt, node: Node<'_>) -> ChkSt {
    match node {
        Node::File(file) => chk_items(cx, st, file.items@, file.items@.len()),
        Node::Item(item) => chk_item(cx, st, *item),
        Node::Meta(meta) => ChkSt { d: chk_meta(cx, st.d, *meta), ..st },
        Node::RootBlock(block) => chk_stmts(cx, st, block.0@, block.0@.len()),
        Node::Stmt(stmt) => chk_stmt(cx, st, *stmt),
        Node::Stmts(stmts) => chk_stmts(cx, st, stmts@, stmts@.len()),
        Node::Expr(e) => ChkSt { d: chk_expr(cx, st.d, *e).1, ..st },
    }
}

/// Visits all of a script.
pub struct Visitor<'a> {
    pub checker: ExprTypeChecker<'a>,
    /// Stack of nested functions whose bodies we are currently inside.
    pub cur_func_stack: Vec<FuncState>,
}

proof fn lemma_stmts_keep_depth(cx: CompilerContext, st: ChkSt, stmts: Seq<Sp<Stmt>>, n: nat)
    ensures
        chk_stmts(cx, st, stmts, n).stack.len() == st.stack.len(),
    decreases stmts, n,
{
    if n > 0 && n <= stmts.len() {
        lemma_stmts_keep_depth(cx, st, stmts, (n - 1) as nat);
        lemma_stmt_keeps_depth(cx, chk_stmts(cx, st, stmts, (n - 1) as nat), stmts[n - 1]);
    }
}

proof fn lemma_stmt_keeps_depth(cx: CompilerContext, st: ChkSt, stmt: Sp<Stmt>)
    ensures
        chk_stmt(cx, st, stmt).stack.len() == st.stack.len(),
    decreases stmt, 0nat,
{
    match stmt.value.kind {
        StmtKind::Item(item) => lemma_item_keeps_depth(cx, st, *item),
        StmtKind::CondChain(chain) => {
            let blocks = chain.cond_blocks@;
            lemma_blocks_keep_depth(cx, st, blocks, blocks.len());
            if let Some(block) = chain.else_block {
                let st = chk_cond_blocks(cx, st, blocks, blocks.len());
                lemma_stmts_keep_depth(cx, st, block.0@, block.0@.len());
            }
        },
        StmtKind::While { do_keyword, cond, block, .. } => {
            if do_keyword is Some {
                let st = ChkSt { d: chk_cond(cx, st.d, cond), ..st };
                lemma_stmts_keep_depth(cx, st, block.0@, block.0@.len());
            } else {
                lemma_stmts_keep_depth(cx, st, block.0@, block.0@.len());
            }
        },
        StmtKind::Loop { block, .. } => {
            lemma_stmts_keep_depth(cx, st, block.0@, block.0@.len());
        },
        StmtKind::Block(block) => {
            lemma_stmts_keep_depth(cx, st, block.0@, block.0@.len());
        },
        StmtKind::Times { clobber, count, block, .. } => {
            let st = ChkSt { d: chk_times(cx, st.d, clobber, count), ..st };
            lemma_stmts_keep_depth(cx, st, block.0@, block.0@.len());
        },
        _ => {},
    }
}

proof fn lemma_blocks_keep_depth(cx: CompilerContext, st: ChkSt, blocks: Seq<CondBlock>, n: nat)
    ensures
        chk_cond_blocks(cx, st, blocks, n).stack.len() == st.stack.len(),
    decreases blocks, n,
{
    if n > 0 && n <= blocks.len() {
        lemma_blocks_keep_depth(cx, st, blocks, (n - 1) as nat);
        let st = chk_cond_blocks(cx, st, blocks, (n - 1) as nat);
        let st = ChkSt { d: chk_cond(cx, st.d, blocks[n - 1].cond), ..st };
        lemma_stmts_keep_depth(cx, st, blocks[n - 1].block.0@, blocks[n - 1].block.0@.len());
    }
}

proof fn lemma_item_keeps_depth(cx: CompilerContext, st: ChkSt, item: Sp<Item>)
    ensures
        chk_item(cx, st, item).stack.len() == st.stack.len(),
    decreases item, 0nat,
{
    match item.value {
        Item::Func(func) => {
            let inner = ChkSt { stack: st.stack.push(func_state(cx, func)), ..st };
            if let Some(code) = func.code {
                lemma_stmts_keep_depth(cx, inner, code.0@, code.0@.len());
            }
        },
        Item::AnmScript { code, .. } => lemma_stmts_keep_depth(cx, st, code.0@, code.0@.len()),
        Item::Timeline { code, .. } => lemma_stmts_keep_depth(cx, st, code.0@, code.0@.len()),
        _ => {},
    }
}

impl<'a> Visitor<'a> {
    pub open spec fn st(self) -> ChkSt {
        ChkSt { stack: self.cur_func_stack@, d: self.checker.diags@ }
    }

    pub open spec fn cx(self) -> CompilerContext {
        *self.checker.ctx
    }

    fn check_stmt_assignment(&mut self, var: &Sp<Var>, op: Sp<AssignOpKind>, value: &Sp<Expr>)
        ensures
            final(self).cx() == old(self).cx(),
            final(self).st() == (ChkSt {
                d: chk_assignment(old(self).cx(), old(self).st().d, *var, op, *value),
                ..old(self).st()
            }),
    {
        let var_ty = self.checker.check_var(var);
        let value_ty = self.checker.check_expr_as_value(value, op.span);
        if let (Some(x), Some(y)) = (var_ty, value_ty) {
            match op.value.corresponding_binop() {
                None => {
                    self.checker.require_same((x, y), op.span, (var.span, value.span));
                },
                Some(binop) => {
                    self.checker.binop_check(
                        Spanned { span: op.span, value: binop },
                        (x, y),
                        (var.span, value.span),
                    );
                },
            }
        }
    }

    fn check_stmt_expr(&mut self, expr: &Sp<Expr>)
        ensures
            final(self).cx() == old(self).cx(),
            final(self).st() == (ChkSt {
                d: chk_expr_stmt(old(self).cx(), old(self).st().d, *expr),
                ..old(self).st()
            }),
    {
        if let Some(ty) = self.checker.check_expr(expr) {
            self.checker.require_void(ty, expr.span, VoidReason::ExpressionStatement);
        }
    }

    fn check_stmt_times(&mut self, clobber: &Option<Sp<Var>>, count: &Sp<Expr>)
        ensures
            final(self).cx() == old(self).cx(),
            final(self).st() == (ChkSt {
                d: chk_times(old(self).cx(), old(self).st().d, *clobber, *count),
                ..old(self).st()
            }),
    {
        let count_ty = match self.checker.check_expr_as_value(count, count.span) {
            Some(ty) => ty,
            None => return,
        };
        if !self.checker.require_int(count_ty, count.span, count.span) {
            return;
        }
        if let Some(clobber) = clobber {
            if let Some(ty) = self.checker.check_var(clobber) {
                self.checker.require_same(
                    (ty, count_ty),
                    count.span,
                    (clobber.span, count.span),
                );
            }
        }
    }

    fn return_ty(&self, def: Option<DefId>) -> (r: Option<Sp<ExprType>>)
        ensures
            r == return_ty_spec(self.cx(), def),
    {
        match def {
            Some(def) => match self.checker.ctx.defs.infos.get(&def.0) {
                Some(DefInfo::Func { siggy }) => Some(siggy.return_ty),
                _ => None,
            },
            None => None,
        }
    }

    fn check_stmt_return(&mut self, return_keyword: Span, expr: &Option<Sp<Expr>>)
        ensures
            final(self).cx() == old(self).cx(),
            final(self).st() == chk_return(
                old(self).cx(),
                old(self).st(),
                return_keyword,
                *expr,
            ),
    {
        let depth: usize = self.cur_func_stack.len();
        if depth == 0 {
            self.checker.emit(TypeDiag::ReturnOutsideFunction { span: return_keyword });
            return;
        }
        let ghost before = self.cur_func_stack@;
        let top = self.cur_func_stack[depth - 1];
        self.cur_func_stack.pop();
        self.cur_func_stack.push(
            FuncState { func_def_id: top.func_def_id, missing_return: false },
        );
        let expected = match self.return_ty(top.func_def_id) {
            Some(ty) => ty,
            None => {
                self.checker.emit(TypeDiag::Unresolved { span: return_keyword });
                return;
            },
        };
        match expr {
            None => {
                self.checker._require_exact_expr(
                    ExprType::Void,
                    expected.value,
                    expected.span,
                    return_keyword,
                );
            },
            Some(value) => {
                if let Some(ty) = self.checker.check_expr_as_value(value, return_keyword) {
                    self.checker._require_exact_expr(
                        ExprType::Value(ty),
                        expected.value,
                        expected.span,
                        value.span,
                    );
                }
            },
        }
    }

    /// Fully checks a variable declaration or a function parameter declaration.
    fn check_single_var_decl(
        &mut self,
        keyword: Sp<TypeKeyword>,
        var: &Sp<Var>,
        value: &Option<Sp<Expr>>,
    )
        ensures
            final(self).cx() == old(self).cx(),
            final(self).st() == (ChkSt {
                d: chk_decl(old(self).cx(), old(self).st().d, keyword, *var, *value),
                ..old(self).st()
            }),
    {
        if !self.checker.check_var_weak(var) {
            return;
        }
        // forbid 'int %x;'
        let decl_ty = match keyword.value {
            TypeKeyword::Void => VarType::Untyped { explicit: false },
            other => other.var_ty(),
        };
        if let VarType::Typed(decl_ty) = decl_ty {
            match self.checker.ctx.var_read_ty_from_ast(&var.value) {
                Some(VarType::Typed(var_ty)) => {
                    if !self.checker._require_exact(decl_ty, var_ty, keyword.span, var.span) {
                        return;
                    }
                },
                _ => {
                    self.checker.emit_prefix_error(var);
                    return;
                },
            }
        }
        // is a value being assigned?
        if let Some(value) = value {
            if let Some(var_ty) = self.checker.check_var(var) {
                if let Some(ty) = self.checker.check_expr_as_value(value, value.span) {
                    self.checker._require_exact(ty, var_ty, keyword.span, value.span);
                }
            }
        }
    }

    fn check_stmt_declaration(
        &mut self,
        keyword: Sp<TypeKeyword>,
        vars: &Vec<Sp<(Sp<Var>, Option<Sp<Expr>>)>>,
    )
        ensures
            final(self).cx() == old(self).cx(),
            final(self).st() == (ChkSt {
                d: chk_decls(old(self).cx(), old(self).st().d, keyword, vars@, vars@.len()),
                ..old(self).st()
            }),
    {
        let mut i: usize = 0;
        while i < vars.len()
            invariant
                i <= vars@.len(),
                self.cx() == old(self).cx(),
                self.st() == (ChkSt {
                    d: chk_decls(old(self).cx(), old(self).st().d, keyword, vars@, i as nat),
                    ..old(self).st()
                }),
            decreases vars@.len() - i,
        {
            self.check_single_var_decl(keyword, &vars[i].value.0, &vars[i].value.1);
            i = i + 1;
        }
    }

    fn check_cond(&mut self, cond: &Sp<Expr>)
        ensures
            final(self).cx() == old(self).cx(),
            final(self).st() == (ChkSt {
                d: chk_cond(old(self).cx(), old(self).st().d, *cond),
                ..old(self).st()
            }),
    {
        let ty = match &cond.value {
            Expr::XcrementOp { op, order, var } => {
                if op.value == XcrementOpKind::Dec && *order == XcrementOpOrder::Pre {
                    self.checker.check_var(var)
                } else {
                    self.checker.check_expr_as_value(cond, cond.span)
                }
            },
            _ => self.checker.check_expr_as_value(cond, cond.span),
        };
        if let Some(ty) = ty {
            self.checker.require_int(ty, cond.span, cond.span);
        }
    }

    /// Check a statement and everything in it.
    pub fn visit_stmt(&mut self, stmt: &Sp<Stmt>)
        ensures
            final(self).cx() == old(self).cx(),
            final(self).st() == chk_stmt(old(self).cx(), old(self).st(), *stmt),
        decreases *stmt, 0nat,
    {
        match &stmt.value.kind {
            StmtKind::Item(item) => self.visit_item(&**item),
            StmtKind::Jump(_) => {},
            StmtKind::CondJump { cond, .. } => self.check_cond(cond),
            StmtKind::CondChain(chain) => {
                self.visit_cond_blocks(&chain.cond_blocks);
                if let Some(block) = &chain.else_block {
                    self.visit_block(&block.0);
                }
            },
            StmtKind::While { do_keyword, cond, block, .. } => {
                if do_keyword.is_some() {
                    self.check_cond(cond);
                    self.visit_block(&block.0);
                } else {
                    self.visit_block(&block.0);
                    self.check_cond(cond);
                }
            },
            StmtKind::Loop { block, .. } => self.visit_block(&block.0),
            StmtKind::Block(block) => self.visit_block(&block.0),
            StmtKind::Return { keyword, value } => self.check_stmt_return(keyword.span, value),
            StmtKind::Assignment { var, op, value } => self.check_stmt_assignment(var, *op, value),
            StmtKind::Expr(expr) => self.check_stmt_expr(expr),
            StmtKind::Times { clobber, count, block, .. } => {
                self.check_stmt_times(clobber, count);
                self.visit_block(&block.0);
            },
            StmtKind::Declaration { ty_keyword, vars } => self.check_stmt_declaration(
                *ty_keyword,
                vars,
            ),
            StmtKind::CallSub { .. } => self.checker.emit(
                TypeDiag::Unsupported { span: stmt.span },
            ),
            StmtKind::InterruptLabel(_) => {},
            StmtKind::AbsTimeLabel(_) => {},
            StmtKind::RelTimeLabel { .. } => {},
            StmtKind::Label(_) => {},
            StmtKind::ScopeEnd(_) => {},
            StmtKind::NoInstruction => {},
        }
    }

    fn visit_block(&mut self, stmts: &Vec<Sp<Stmt>>)
        ensures
            final(self).cx() == old(self).cx(),
            final(self).st() == chk_stmts(
                old(self).cx(),
                old(self).st(),
                stmts@,
                stmts@.len(),
            ),
        decreases *stmts, 0nat,
    {
        let mut i: usize = 0;
        while i < stmts.len()
            invariant
                i <= stmts@.len(),
                self.cx() == old(self).cx(),
                self.st() == chk_stmts(old(self).cx(), old(self).st(), stmts@, i as nat),
            decreases stmts@.len() - i,
        {
            assert(decreases_to!(*stmts => stmts@[i as int]));
            self.visit_stmt(&stmts[i]);
            i = i + 1;
        }
    }

    fn visit_bare_stmts(&mut self, stmts: &[Sp<Stmt>])
        ensures
            final(self).cx() == old(self).cx(),
            final(self).st() == chk_stmts(
                old(self).cx(),
                old(self).st(),
                stmts@,
                stmts@.len(),
            ),
    {
        let mut i: usize = 0;
        while i < stmts.len()
            invariant
                i <= stmts@.len(),
                self.cx() == old(self).cx(),
                self.st() == chk_stmts(old(self).cx(), old(self).st(), stmts@, i as nat),
            decreases stmts@.len() - i,
        {
            self.visit_stmt(&stmts[i]);
            i = i + 1;
        }
    }

    fn visit_cond_blocks(&mut self, blocks: &Vec<CondBlock>)
        ensures
            final(self).cx() == old(self).cx(),
            final(self).st() == chk_cond_blocks(
                old(self).cx(),
                old(self).st(),
                blocks@,
                blocks@.len(),
            ),
        decreases *blocks, 0nat,
    {
        let mut i: usize = 0;
        while i < blocks.len()
            invariant
                i <= blocks@.len(),
                self.cx() == old(self).cx(),
                self.st() == chk_cond_blocks(old(self).cx(), old(self).st(), blocks@, i as nat),
            decreases blocks@.len() - i,
        {
            assert(decreases_to!(*blocks => blocks@[i as int].block.0));
            self.check_cond(&blocks[i].cond);
            self.visit_block(&blocks[i].block.0);
            i = i + 1;
        }
    }

    /// Check an item and everything in it.
    pub fn visit_item(&mut self, item: &Sp<Item>)
        ensures
            final(self).cx() == old(self).cx(),
            final(self).st() == chk_item(old(self).cx(), old(self).st(), *item),
        decreases *item, 0nat,
    {
        match &item.value {
            Item::Func(func) => {
                let func_def_id = self.checker.ctx.def_of(&func.ident.value);
                let missing_return = match func.ty_keyword.value {
                    TypeKeyword::Int | TypeKeyword::Float | TypeKeyword::String => true,
                    TypeKeyword::Var | TypeKeyword::Void => false,
                };
                self.cur_func_stack.push(FuncState { func_def_id, missing_return });
                let ghost inner = self.st();
                assert(inner.stack =~= old(self).st().stack.push(func_state(self.cx(), *func)));
                if let Some(code) = &func.code {
                    proof {
                        lemma_stmts_keep_depth(self.cx(), inner, code.0@, code.0@.len());
                    }
                    self.visit_block(&code.0);
                }
                let ghost after = self.st();
                let finished = match self.cur_func_stack.pop() {
                    Some(state) => state.missing_return,
                    None => false,
                };
                if finished {
                    self.checker.emit(TypeDiag::MissingReturn { item: item.span });
                }
                assert(self.st() =~= chk_item(old(self).cx(), old(self).st(), *item));
            },
            Item::AnmScript { code, .. } => self.visit_block(&code.0),
            Item::Timeline { code, .. } => self.visit_block(&code.0),
            Item::Meta { fields, .. } => self.visit_fields(&fields.value.0),
            Item::ConstVar { vars, .. } => {
                let mut i: usize = 0;
                while i < vars.len()
                    invariant
                        i <= vars@.len(),
                        self.cx() == old(self).cx(),
                        self.st() == (ChkSt {
                            d: chk_consts(old(self).cx(), old(self).st().d, vars@, i as nat),
                            ..old(self).st()
                        }),
                    decreases vars@.len() - i,
                {
                    self.checker.check_expr(&vars[i].value.1);
                    i = i + 1;
                }
            },
        }
    }

    /// Check a value of a section of data.
    pub fn visit_meta(&mut self, meta: &Sp<Meta>)
        ensures
            final(self).cx() == old(self).cx(),
            final(self).st() == (ChkSt {
                d: chk_meta(old(self).cx(), old(self).st().d, *meta),
                ..old(self).st()
            }),
        decreases *meta, 0nat,
    {
        match &meta.value {
            Meta::Scalar(expr) => {
                self.checker.check_expr(expr);
            },
            Meta::Array(items) => self.visit_metas(items),
            Meta::Object(fields) => self.visit_fields(&fields.value.0),
            Meta::Variant { fields, .. } => self.visit_fields(&fields.value.0),
        }
    }

    fn visit_metas(&mut self, items: &Vec<Sp<Meta>>)
        ensures
            final(self).cx() == old(self).cx(),
            final(self).st() == (ChkSt {
                d: chk_metas(old(self).cx(), old(self).st().d, items@, items@.len()),
                ..old(self).st()
            }),
        decreases *items, 0nat,
    {
        let mut i: usize = 0;
        while i < items.len()
            invariant
                i <= items@.len(),
                self.cx() == old(self).cx(),
                self.st() == (ChkSt {
                    d: chk_metas(old(self).cx(), old(self).st().d, items@, i as nat),
                    ..old(self).st()
                }),
            decreases items@.len() - i,
        {
            assert(decreases_to!(*items => items@[i as int]));
            self.visit_meta(&items[i]);
            i = i + 1;
        }
    }

    fn visit_fields(&mut self, fields: &Vec<(Sp<Ident>, Sp<Meta>)>)
        ensures
            final(self).cx() == old(self).cx(),
            final(self).st() == (ChkSt {
                d: chk_fields(old(self).cx(), old(self).st().d, fields@, fields@.len()),
                ..old(self).st()
            }),
        decreases *fields, 0nat,
    {
        let mut i: usize = 0;
        while i < fields.len()
            invariant
                i <= fields@.len(),
                self.cx() == old(self).cx(),
                self.st() == (ChkSt {
                    d: chk_fields(old(self).cx(), old(self).st().d, fields@, i as nat),
                    ..old(self).st()
                }),
            decreases fields@.len() - i,
        {
            assert(decreases_to!(*fields => fields@[i as int]));
            assert(decreases_to!(fields@[i as int] => fields@[i as int].1));
            self.visit_meta(&fields[i].1);
            i = i + 1;
        }
    }

    fn visit_file(&mut self, file: &ScriptFile)
        ensures
            final(self).cx() == old(self).cx(),
            final(self).st() == chk_items(
                old(self).cx(),
                old(self).st(),
                file.items@,
                file.items@.len(),
            ),
    {
        let mut i: usize = 0;
        while i < file.items.len()
            invariant
                i <= file.items@.len(),
                self.cx() == old(self).cx(),
                self.st() == chk_items(old(self).cx(), old(self).st(), file.items@, i as nat),
            decreases file.items@.len() - i,
        {
            self.visit_item(&file.items[i]);
            i = i + 1;
        }
    }
}

fn any_error(diags: &Vec<TypeDiag>) -> (r: bool)
    ensures
        r == has_error(diags@),
{
    let mut i: usize = 0;
    while i < diags.len()
        invariant
            i <= diags@.len(),
            forall|j: int| 0 <= j < i ==> !is_error(#[trigger] diags@[j]),
        decreases diags@.len() - i,
    {
        match diags[i] {
            TypeDiag::MissingReturn { .. } => {},
            _ => {
                assert(is_error(diags@[i as int]));
                return true;
            },
        }
        i = i + 1;
    }
    false
}

/// The diagnostics of a tree.
pub open spec fn run_spec(cx: CompilerContext, node: Node<'_>) -> DiagsV {
    chk_node(cx, ChkSt { stack: seq![], d: seq![] }, node).d
}

/// Performs type-checking.  Gives the warnings if there is no error, and all diagnostics if there is.
///
/// See the [the module-level documentation][self] for more details.
pub fn run<A: Visitable + ?Sized>(ast: &A, ctx: &CompilerContext) -> (r: Result<
    Vec<TypeDiag>,
    Vec<TypeDiag>,
>)
    ensures
        ({
            let d = run_spec(*ctx, ast.node_spec());
            match r {
                Ok(warnings) => !has_error(d) && warnings@ == d,
                Err(diags) => has_error(d) && diags@ == d,
            }
        }),
{
    let mut v = Visitor { checker: ExprTypeChecker::new(ctx), cur_func_stack: Vec::new() };
    assert(v.st() =~= (ChkSt { stack: seq![], d: seq![] }));
    match ast.node() {
        Node::File(file) => v.visit_file(file),
        Node::Item(item) => v.visit_item(item),
        Node::Meta(meta) => v.visit_meta(meta),
        Node::RootBlock(block) => v.visit_block(&block.0),
        Node::Stmt(stmt) => v.visit_stmt(stmt),
        Node::Stmts(stmts) => v.visit_bare_stmts(stmts),
        Node::Expr(expr) => {
            v.checker.check_expr(expr);
        },
    }
    let diags = v.checker.diags;
    if any_error(&diags) {
        Err(diags)
    } else {
        Ok(diags)
    }
}

// =============================================================================
// Types of expressions that were checked

/// The type of an expression that was checked.
pub open spec fn computed(cx: CompilerContext, e: Expr) -> Option<ExprType>
    decreases e,
{
    match e {
        Expr::LitFloat { .. } => Some(ExprType::Value(ScalarType::Float)),
        Expr::LitInt { .. } => Some(ExprType::Value(ScalarType::Int)),
        Expr::LitString(_) => Some(ExprType::Value(ScalarType::String)),
        Expr::LabelProperty { .. } => Some(ExprType::Value(ScalarType::Int)),
        Expr::EnumConst { .. } => Some(ExprType::Value(ScalarType::Int)),
        Expr::Var(var) => match cx.read_ty_spec(var.value) {
            Some(VarType::Typed(ty)) => Some(ExprType::Value(ty)),
            _ => None,
        },
        Expr::BinOp(a, op, _) => if op.value.class_spec() is Arithmetic {
            match computed(cx, a.value) {
                Some(ExprType::Value(ty)) => Some(ExprType::Value(ty)),
                _ => None,
            }
        } else {
            Some(ExprType::Value(ScalarType::Int))
        },
        Expr::UnOp(op, x) => match op.value {
            UnOpKind::Neg => match computed(cx, x.value) {
                Some(ExprType::Value(ty)) => Some(ExprType::Value(ty)),
                _ => None,
            },
            UnOpKind::EncodeI => None,
            UnOpKind::EncodeF => None,
            other => Some(ExprType::Value(unop_result(other, ScalarType::Int))),
        },
        Expr::Ternary { left, .. } => computed(cx, left.value),
        Expr::Call(call) => if blob_index(call.pseudos@, call.pseudos@.len()) is Some {
            Some(ExprType::Void)
        } else {
            match cx.signature_spec(call.name.value) {
                Ok(siggy) => Some(siggy.return_ty.value),
                Err(_) => None,
            }
        },
        Expr::XcrementOp { .. } => None,
        Expr::DiffSwitch(_) => None,
    }
}

/// The type of a binary operator expression, given one of its arguments.
pub open spec fn binop_computed(cx: CompilerContext, op: BinOpKind, arg: Expr) -> Option<ScalarType> {
    if op.class_spec() is Arithmetic {
        match computed(cx, arg) {
            Some(ExprType::Value(ty)) => Some(ty),
            _ => None,
        }
    } else {
        Some(ScalarType::Int)
    }
}

/// The type of a unary operator expression, given its argument.
pub open spec fn unop_computed(cx: CompilerContext, op: UnOpKind, arg: Expr) -> Option<ScalarType> {
    match op {
        UnOpKind::Neg => match computed(cx, arg) {
            Some(ExprType::Value(ty)) => Some(ty),
            _ => None,
        },
        UnOpKind::EncodeI => None,
        UnOpKind::EncodeF => None,
        other => Some(unop_result(other, ScalarType::Int)),
    }
}

impl Expr {
    /// Determine the type of this expression.
    ///
    /// Requires name resolution.
    ///
    /// This may need to recurse into subexpressions, though it tries to generally do minimal work.
    /// It assumes that the expression has already been type-checked.
    pub fn compute_ty(&self, ctx: &CompilerContext) -> (r: ExprType)
        requires
            computed(*ctx, *self) is Some,
        ensures
            Some(r) == computed(*ctx, *self),
        decreases *self, 0nat,
    {
        match self {
            Expr::LitFloat { .. } => ExprType::Value(ScalarType::Float),
            Expr::LitInt { .. } => ExprType::Value(ScalarType::Int),
            Expr::LitString(_) => ExprType::Value(ScalarType::String),
            Expr::LabelProperty { .. } => ExprType::Value(ScalarType::Int),
            Expr::EnumConst { .. } => ExprType::Value(ScalarType::Int),
            Expr::Var(var) => match ctx.var_read_ty_from_ast(&var.value) {
                Some(VarType::Typed(ty)) => ExprType::Value(ty),
                _ => unreached(),
            },
            Expr::BinOp(a, op, _) => ExprType::Value(Expr::binop_ty(op.value, &a.value, ctx)),
            Expr::UnOp(op, x) => ExprType::Value(Expr::unop_ty(op.value, &x.value, ctx)),
            Expr::Ternary { left, .. } => left.value.compute_ty(ctx),
            Expr::Call(call) => {
                if call.blob().is_some() {
                    ExprType::Void  // args blob always produces void
                } else {
                    match ctx.func_signature_from_ast(&call.name.value) {
                        Ok(siggy) => siggy.return_ty.value,
                        Err(_) => unreached(),
                    }
                }
            },
            _ => unreached(),
        }
    }

    /// Static function for computing the output type of a binary operator expression,
    /// given at least one of its arguments.
    ///
    /// Requires name resolution.
    ///
    /// This assumes that the expression has already been type-checked.
    pub fn binop_ty(op: BinOpKind, arg: &Expr, ctx: &CompilerContext) -> (r: ScalarType)
        requires
            binop_computed(*ctx, op, *arg) is Some,
        ensures
            Some(r) == binop_computed(*ctx, op, *arg),
        decreases *arg, 1nat,
    {
        match op.class() {
            OpClass::Arithmetic => match arg.compute_ty(ctx) {
                ExprType::Value(ty) => ty,
                ExprType::Void => unreached(),
            },
            _ => ScalarType::Int,
        }
    }

    /// Static function for computing the output type of a unary operator expression.
    ///
    /// Requires name resolution.
    ///
    /// This assumes that the expression has already been type-checked.
    pub fn unop_ty(op: UnOpKind, arg: &Expr, ctx: &CompilerContext) -> (r: ScalarType)
        requires
            unop_computed(*ctx, op, *arg) is Some,
        ensures
            Some(r) == unop_computed(*ctx, op, *arg),
        decreases *arg, 1nat,
    {
        match op {
            UnOpKind::Neg => match arg.compute_ty(ctx) {
                ExprType::Value(ty) => ty,
                ExprType::Void => unreached(),
            },
            other => unop_ty_of(other, ScalarType::Int),
        }
    }
}

/// An expression in which the checker finds no error has the type that is computed for it later.
pub proof fn law_computed_type_is_checked_type(cx: CompilerContext, d: DiagsV, e: Sp<Expr>)
    ensures
        chk_expr(cx, d, e).0 matches Some(ty) ==> computed(cx, e.value) == Some(ty),
    decreases e,
{
    match e.value {
        Expr::BinOp(a, op, b) => {
            law_computed_type_is_checked_type(cx, d, *a);
            let (_, d1) = chk_expr(cx, d, *a);
            assert(chk_value(cx, d, *a, op.span).0 matches Some(ty) ==> computed(cx, a.value)
                == Some(ExprType::Value(ty)));
        },
        Expr::UnOp(op, x) => {
            law_computed_type_is_checked_type(cx, d, *x);
            assert(chk_value(cx, d, *x, op.span).0 matches Some(ty) ==> computed(cx, x.value)
                == Some(ExprType::Value(ty)));
        },
        Expr::Ternary { cond, question, left, colon, right } => {
            law_computed_type_is_checked_type(cx, d, *left);
            assert(chk_value(cx, d, *left, question.span).0 matches Some(ty) ==> computed(
                cx,
                left.value,
            ) == Some(ExprType::Value(ty)));
        },
        Expr::Call(call) => {
            assert(chk_expr(cx, d, e) == chk_call(cx, d, call));
        },
        _ => {},
    }
}

// =============================================================================

/// Represents an auxilliary type-check that isn't normally performed by the `type_check` pass.
pub struct ShallowTypeCheck {
    pub expr: Sp<Expr>,
    pub ty: ExprType,
    pub cause: Option<Span>,
}

pub open spec fn shallow_spec(cx: CompilerContext, d: DiagsV, check: ShallowTypeCheck) -> DiagsV {
    let actual = computed(cx, check.expr.value)->0;
    let cause = match check.cause {
        Some(cause) => cause,
        None => check.expr.span,
    };
    match check.ty {
        ExprType::Void => req_void(d, actual, check.expr.span, VoidReason::Expected).1,
        ExprType::Value(expected) => {
            let (ty, d) = req_value(d, actual, cause, check.expr.span);
            match ty {
                None => d,
                Some(ty) => req_scalar(d, ty, expected, cause, check.expr.span).1,
            }
        },
    }
}

/// The diagnostics of the first `n` checks.
pub open spec fn shallow_all(cx: CompilerContext, checks: Seq<ShallowTypeCheck>, n: nat) -> DiagsV
    decreases n,
{
    if n == 0 {
        seq![]
    } else {
        shallow_spec(cx, shallow_all(cx, checks, (n - 1) as nat), checks[n - 1])
    }
}

impl<'a> ExprTypeChecker<'a> {
    fn perform_shallow_type_check(&mut self, check: &ShallowTypeCheck)
        requires
            computed(*old(self).ctx, check.expr.value) is Some,
        ensures
            final(self).ctx == old(self).ctx,
            final(self).diags@ == shallow_spec(*old(self).ctx, old(self).diags@, *check),
    {
        let actual_ty = check.expr.value.compute_ty(self.ctx);
        let cause = match check.cause {
            Some(cause) => cause,
            None => check.expr.span,
        };
        match check.ty {
            ExprType::Void => {
                self.require_void(actual_ty, check.expr.span, VoidReason::Expected);
            },
            ExprType::Value(expected_ty) => {
                if let Some(ty) = self.require_value(actual_ty, cause, check.expr.span) {
                    self._require_exact(ty, expected_ty, cause, check.expr.span);
                }
            },
        }
    }
}

/// Performs additional, shallow type checks that couldn't be done by [`run`] for whatever reason.
pub fn extra_checks(checks: &Vec<ShallowTypeCheck>, ctx: &CompilerContext) -> (r: Result<
    (),
    Vec<TypeDiag>,
>)
    requires
        forall|i: int|
            0 <= i < checks@.len() ==> computed(*ctx, (#[trigger] checks@[i]).expr.value) is Some,
    ensures
        ({
            let d = shallow_all(*ctx, checks@, checks@.len());
            match r {
                Ok(_) => d.len() == 0,
                Err(diags) => d.len() > 0 && diags@ == d,
            }
        }),
{
    let mut checker = ExprTypeChecker::new(ctx);
    let mut i: usize = 0;
    while i < checks.len()
        invariant
            i <= checks@.len(),
            checker.ctx == ctx,
            forall|i: int|
                0 <= i < checks@.len() ==> computed(
                    *ctx,
                    (#[trigger] checks@[i]).expr.value,
                ) is Some,
            checker.diags@ == shallow_all(*ctx, checks@, i as nat),
        decreases checks@.len() - i,
    {
        checker.perform_shallow_type_check(&checks[i]);
        i = i + 1;
    }
    if checker.diags.len() > 0 {
        Err(checker.diags)
    } else {
        Ok(())
    }
}

// =============================================================================
// When there are errors

/// Diagnostics that begin with others, and go on with errors if there is a failure and not at all
/// otherwise.
pub open spec fn reported(before: DiagsV, after: DiagsV, ok: bool) -> bool {
    &&& before.len() <= after.len()
    &&& after.take(before.len() as int) == before
    &&& if ok {
        after == before
    } else {
        after.len() > before.len() && is_error(after.last())
    }
}

proof fn lemma_reported_through(a: DiagsV, b: DiagsV, c: DiagsV, first: bool, second: bool)
    requires
        reported(a, b, first),
        reported(b, c, second),
    ensures
        reported(a, c, first && second),
{
    assert(c.take(a.len() as int) =~= c.take(b.len() as int).take(a.len() as int));
    if first {
        assert(a == b);
    } else if second {
        assert(b == c);
    }
}

pub proof fn lemma_reported_push(d: DiagsV, diag: TypeDiag)
    requires
        is_error(diag),
    ensures
        reported(d, d.push(diag), false),
{
    assert(d.push(diag).take(d.len() as int) =~= d);
}

proof fn lemma_reported_nothing(d: DiagsV)
    ensures
        reported(d, d, true),
{
    assert(d.take(d.len() as int) =~= d);
}

/// What the requirements push is reported.
pub proof fn lemma_requirements(d: DiagsV)
    ensures
        forall|types: (ScalarType, ScalarType), cause: Span, spans: (Span, Span)|
            #![trigger req_same(d, types, cause, spans)]
            reported(
                d,
                req_same(d, types, cause, spans).1,
                req_same(d, types, cause, spans).0,
            ),
        forall|ty: ExprType, expected: ExprType, cause: Span, span: Span|
            #![trigger req_exact(d, ty, expected, cause, span)]
            reported(
                d,
                req_exact(d, ty, expected, cause, span).1,
                req_exact(d, ty, expected, cause, span).0,
            ),
        forall|ty: ScalarType, cause: Span, span: Span|
            #![trigger req_numeric(d, ty, cause, span)]
            reported(
                d,
                req_numeric(d, ty, cause, span).1,
                req_numeric(d, ty, cause, span).0,
            ),
        forall|ty: ExprType, cause: Span, span: Span|
            #![trigger req_value(d, ty, cause, span)]
            reported(
                d,
                req_value(d, ty, cause, span).1,
                req_value(d, ty, cause, span).0 is Some,
            ),
        forall|diag: TypeDiag|
            is_error(diag) ==> reported(d, #[trigger] d.push(diag), false),
        reported(d, d, true),
{
    lemma_reported_nothing(d);
    assert forall|diag: TypeDiag| is_error(diag) implies reported(
        d,
        #[trigger] d.push(diag),
        false,
    ) by {
        lemma_reported_push(d, diag);
    }
}

pub proof fn lemma_var_reported(cx: CompilerContext, d: DiagsV, var: Sp<Var>)
    ensures
        reported(d, chk_var(cx, d, var).1, chk_var(cx, d, var).0 is Some),
{
    lemma_requirements(d);
}

pub proof fn lemma_binop_reported(
    d: DiagsV,
    op: Sp<BinOpKind>,
    types: (ScalarType, ScalarType),
    spans: (Span, Span),
)
    ensures
        reported(
            d,
            binop_check_spec(d, op, types, spans).1,
            binop_check_spec(d, op, types, spans).0,
        ),
{
    lemma_requirements(d);
}

proof fn lemma_unop_reported(d: DiagsV, op: Sp<UnOpKind>, ty: ScalarType, span: Span)
    ensures
        reported(d, unop_check_spec(d, op, ty, span).1, unop_check_spec(d, op, ty, span).0),
{
    lemma_requirements(d);
}

/// An expression has a type exactly if the checker says nothing about it; otherwise what it says
/// ends with an error.
pub proof fn law_failed_check_is_reported(cx: CompilerContext, d: DiagsV, e: Sp<Expr>)
    ensures
        reported(d, chk_expr(cx, d, e).1, chk_expr(cx, d, e).0 is Some),
    decreases e, 0nat,
{
    lemma_requirements(d);
    match e.value {
        Expr::Var(var) => lemma_var_reported(cx, d, var),
        Expr::BinOp(a, op, b) => {
            let (a_ty, d1) = chk_value(cx, d, *a, op.span);
            let (b_ty, d2) = chk_value(cx, d1, *b, op.span);
            lemma_value_reported(cx, d, *a, op.span);
            lemma_value_reported(cx, d1, *b, op.span);
            lemma_reported_through(d, d1, d2, a_ty is Some, b_ty is Some);
            if let (Some(x), Some(y)) = (a_ty, b_ty) {
                let (ok, d3) = binop_check_spec(d2, op, (x, y), (a.span, b.span));
                lemma_binop_reported(d2, op, (x, y), (a.span, b.span));
                lemma_reported_through(d, d2, d3, true, ok);
            }
        },
        Expr::UnOp(op, x) => {
            let (ty, d1) = chk_value(cx, d, *x, op.span);
            lemma_value_reported(cx, d, *x, op.span);
            if let Some(ty) = ty {
                let (ok, d2) = unop_check_spec(d1, op, ty, x.span);
                lemma_unop_reported(d1, op, ty, x.span);
                lemma_reported_through(d, d1, d2, true, ok);
            }
        },
        Expr::Ternary { cond, question, left, colon, right } => {
            let (left_ty, d1) = chk_value(cx, d, *left, question.span);
            let (right_ty, d2) = chk_value(cx, d1, *right, colon.span);
            let (cond_ty, d3) = chk_value(cx, d2, *cond, colon.span);
            lemma_value_reported(cx, d, *left, question.span);
            lemma_value_reported(cx, d1, *right, colon.span);
            lemma_value_reported(cx, d2, *cond, colon.span);
            lemma_reported_through(d, d1, d2, left_ty is Some, right_ty is Some);
            let both = left_ty is Some && right_ty is Some;
            lemma_reported_through(d, d2, d3, both, cond_ty is Some);
            if let Some(ty) = cond_ty {
                lemma_requirements(d3);
                let (ok, d4) = req_scalar(d3, ty, ScalarType::Int, question.span, cond.span);
                lemma_reported_through(d, d3, d4, both, ok);
                if ok {
                    if let (Some(x), Some(y)) = (left_ty, right_ty) {
                        let (same, d5) = req_same(
                            d4,
                            (x, y),
                            colon.span,
                            (left.span, right.span),
                        );
                        lemma_reported_through(d, d4, d5, true, same);
                    }
                }
            }
        },
        Expr::Call(call) => {
            lemma_call_reported(cx, d, call);
            assert(chk_expr(cx, d, e) == chk_call(cx, d, call));
        },
        _ => {},
    }
}

pub proof fn lemma_value_reported(cx: CompilerContext, d: DiagsV, e: Sp<Expr>, reason: Span)
    ensures
        reported(d, chk_value(cx, d, e, reason).1, chk_value(cx, d, e, reason).0 is Some),
    decreases e, 1nat,
{
    law_failed_check_is_reported(cx, d, e);
    let (ty, d1) = chk_expr(cx, d, e);
    if let Some(ty) = ty {
        lemma_requirements(d1);
        let (value, d2) = req_value(d1, ty, reason, e.span);
        lemma_reported_through(d, d1, d2, true, value is Some);
    }
}

proof fn lemma_pseudos_reported(
    cx: CompilerContext,
    d: DiagsV,
    pseudos: Seq<Sp<PseudoArg>>,
    n: nat,
)
    ensures
        reported(d, chk_pseudos(cx, d, pseudos, n).1, chk_pseudos(cx, d, pseudos, n).0),
    decreases pseudos, n,
{
    if n == 0 || n > pseudos.len() {
        lemma_reported_nothing(d);
    } else {
        lemma_pseudos_reported(cx, d, pseudos, (n - 1) as nat);
        let (before, d1) = chk_pseudos(cx, d, pseudos, (n - 1) as nat);
        let p = pseudos[n - 1].value;
        let (ty, d2) = chk_value(cx, d1, p.value, tag_span_spec(p));
        lemma_value_reported(cx, d1, p.value, tag_span_spec(p));
        lemma_reported_through(d, d1, d2, before, ty is Some);
        if let Some(ty) = ty {
            lemma_requirements(d2);
            let (ok, d3) = pseudo_check_spec(d2, p.kind, ty, p.value.span);
            lemma_reported_through(d, d2, d3, before, ok);
        }
    }
}

proof fn lemma_args_reported(
    cx: CompilerContext,
    d: DiagsV,
    args: Seq<Sp<Expr>>,
    siggy: Signature,
    name: Span,
    n: nat,
)
    ensures
        reported(
            d,
            chk_args(cx, d, args, siggy, name, n).1,
            chk_args(cx, d, args, siggy, name, n).0,
        ),
    decreases args, n,
{
    if n == 0 || n > args.len() {
        lemma_reported_nothing(d);
    } else {
        lemma_args_reported(cx, d, args, siggy, name, (n - 1) as nat);
        let (before, d1) = chk_args(cx, d, args, siggy, name, (n - 1) as nat);
        let (ty, d2) = chk_value(cx, d1, args[n - 1], name);
        lemma_value_reported(cx, d1, args[n - 1], name);
        lemma_reported_through(d, d1, d2, before, ty is Some);
        lemma_requirements(d2);
        let (ok, d3) = chk_args(cx, d, args, siggy, name, n);
        if d3 != d2 {
            lemma_reported_through(d, d2, d3, before && ty is Some, false);
        }
    }
}

proof fn lemma_call_reported(cx: CompilerContext, d: DiagsV, call: ExprCall)
    ensures
        reported(d, chk_call(cx, d, call).1, chk_call(cx, d, call).0 is Some),
    decreases call, 0nat,
{
    let pseudos = call.pseudos@;
    let args = call.args@;
    let name = call.name.span;
    let (ok, d1) = chk_pseudos(cx, d, pseudos, pseudos.len());
    lemma_pseudos_reported(cx, d, pseudos, pseudos.len());
    if ok {
        lemma_requirements(d1);
        if blob_index(pseudos, pseudos.len()) is None {
            if let Ok(siggy) = cx.signature_spec(call.name.value) {
                lemma_args_reported(cx, d1, args, siggy, name, args.len());
            }
        }
        assert(d1 == d);
    }
}

} // verus!
