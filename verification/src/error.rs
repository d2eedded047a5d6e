//! Errors of the script compiler.
//!
//! An error is a value that says what is wrong and where; turning it into text with
//! excerpts of the source is left to the caller.

use crate::ident::Ident;
use crate::instr::IntrinsicInstrKind;
use crate::meta::{from_meta_error_view, FromMetaError};
use crate::pos::{Sp, Span};
use crate::scope::VarId;
use crate::script::{ident_view, MetaKeyword};
use crate::type_system::ScalarType;
use vstd::prelude::*;

verus! {

/// One error, with names of type `N` and reports on registers of type `R`.
///
/// In code these are [`Ident`] and [`RegisterUsage`]; contracts speak of their views.
#[derive(Debug)]
#[allow(inconsistent_fields)]
pub enum Diagnostic<N, R> {
    /// "feature not supported by format"
    Unsupported { span: Span },
    /// "'goto @ time' not supported in this game"
    GotoTimeUnsupported { span: Span },
    /// There is no instruction for an operation in this game.
    IntrinsicUnsupported { kind: IntrinsicInstrKind, span: Span },
    /// "statement after end of script"
    StatementAfterEnd { stmt: Span, end: Span },
    /// "unknown instruction"
    UnknownInstruction { name: Sp<N> },
    /// "signature not known"
    SignatureUnknown { name: Sp<N> },
    /// "wrong number of arguments"
    WrongArgCount { name: Sp<N>, expected: usize, actual: usize },
    /// "argument has wrong type", with the number of the argument counted from one.
    WrongArgType { index: usize, name: Sp<N>, arg: Span, expected: ScalarType },
    /// "variable requires a type prefix"
    NeedsTypePrefix { span: Span },
    /// "unrecognized variable"
    UnrecognizedVariable { span: Span },
    /// Two operands that must have one type have two.
    TypeMismatch { op: Span, left: Sp<ScalarType>, right: Sp<ScalarType> },
    /// An operand of this type does not fit the operator.
    BadOperand { op: Span, operand: Sp<ScalarType> },
    /// "expected an int", of the variable of a counting jump.
    CountNotInt { cond: Span, keyword: Span, actual: ScalarType },
    /// "ternary condition must be an integer"
    TernaryCondNotInt { cond: Span },
    /// An integer division or remainder by a zero that is known when compiling.
    DivisionByZero { op: Span, divisor: Span },
    /// "duplicate label"
    DuplicateLabel { label: Sp<N>, old: Sp<N> },
    /// "undefined label"
    UndefinedLabel { label: Sp<N> },
    /// A label after the last instruction, which has nothing to stand for.
    LabelAtEnd { label: Sp<N> },
    /// "expression too complex to compile"
    OutOfRegisters { cause: Span, ty: ScalarType, usage: R },
    /// A local variable that no register was set aside for.
    LocalWithoutRegister { var: VarId },
    /// The script has more variables or bytes than the machine can count.
    ScriptTooLarge,
    /// "no such variable"
    NoSuchVariable { name: Sp<N> },
    /// "'meta' supplied multiple times"
    DuplicateMeta { keyword: Span, previous: Span },
    /// "unexpected named meta"
    NamedMeta { name: Sp<N> },
    /// A section that STD files do not have.
    UnexpectedMeta { keyword: Sp<MetaKeyword> },
    /// "unexpected numbered script"
    NumberedScript { span: Span },
    /// "STD script must be called 'main'"
    ScriptNotMain { name: Sp<N> },
    /// "redefinition of 'main' script"
    DuplicateMain { item: Span, previous: Span },
    /// "missing 'main' sub"
    MissingMain,
    /// "missing 'meta' section"
    MissingMeta,
    /// A value of a `meta` section is not as it must be.
    BadMeta(FromMetaError<N>),
}

/// What becomes of the registers of one type when there is none left.
#[derive(Debug)]
pub struct RegisterUsage {
    /// The registers that hold temporaries, each with the place that asked for it.
    pub held: Vec<(i32, Span)>,
    /// The registers that are unavailable because the script uses them itself.
    pub unavailable: Vec<i32>,
}

/// The view of a [`RegisterUsage`].
#[verifier::ext_equal]
pub ghost struct UsageV {
    pub held: Seq<(i32, Span)>,
    pub unavailable: Seq<i32>,
}

impl View for RegisterUsage {
    type V = UsageV;

    open spec fn view(&self) -> UsageV {
        UsageV { held: self.held@, unavailable: self.unavailable@ }
    }
}

/// An error as code has it.
pub type Error = Diagnostic<Ident, RegisterUsage>;

/// An error as contracts speak of it.
pub type ErrorV = Diagnostic<Seq<char>, UsageV>;

impl View for Diagnostic<Ident, RegisterUsage> {
    type V = Diagnostic<Seq<char>, UsageV>;

    open spec fn view(&self) -> Diagnostic<Seq<char>, UsageV> {
        match *self {
            Diagnostic::Unsupported { span } => Diagnostic::Unsupported { span },
            Diagnostic::GotoTimeUnsupported { span } => Diagnostic::GotoTimeUnsupported { span },
            Diagnostic::IntrinsicUnsupported { kind, span } => Diagnostic::IntrinsicUnsupported {
                kind,
                span,
            },
            Diagnostic::StatementAfterEnd { stmt, end } => Diagnostic::StatementAfterEnd {
                stmt,
                end,
            },
            Diagnostic::UnknownInstruction { name } => Diagnostic::UnknownInstruction {
                name: ident_view(name),
            },
            Diagnostic::SignatureUnknown { name } => Diagnostic::SignatureUnknown {
                name: ident_view(name),
            },
            Diagnostic::WrongArgCount { name, expected, actual } => Diagnostic::WrongArgCount {
                name: ident_view(name),
                expected,
                actual,
            },
            Diagnostic::WrongArgType { index, name, arg, expected } => Diagnostic::WrongArgType {
                index,
                name: ident_view(name),
                arg,
                expected,
            },
            Diagnostic::NeedsTypePrefix { span } => Diagnostic::NeedsTypePrefix { span },
            Diagnostic::UnrecognizedVariable { span } => Diagnostic::UnrecognizedVariable { span },
            Diagnostic::TypeMismatch { op, left, right } => Diagnostic::TypeMismatch {
                op,
                left,
                right,
            },
            Diagnostic::BadOperand { op, operand } => Diagnostic::BadOperand { op, operand },
            Diagnostic::CountNotInt { cond, keyword, actual } => Diagnostic::CountNotInt {
                cond,
                keyword,
                actual,
            },
            Diagnostic::TernaryCondNotInt { cond } => Diagnostic::TernaryCondNotInt { cond },
            Diagnostic::DivisionByZero { op, divisor } => Diagnostic::DivisionByZero {
                op,
                divisor,
            },
            Diagnostic::DuplicateLabel { label, old } => Diagnostic::DuplicateLabel {
                label: ident_view(label),
                old: ident_view(old),
            },
            Diagnostic::UndefinedLabel { label } => Diagnostic::UndefinedLabel {
                label: ident_view(label),
            },
            Diagnostic::LabelAtEnd { label } => Diagnostic::LabelAtEnd { label: ident_view(label) },
            Diagnostic::OutOfRegisters { cause, ty, usage } => Diagnostic::OutOfRegisters {
                cause,
                ty,
                usage: usage@,
            },
            Diagnostic::LocalWithoutRegister { var } => Diagnostic::LocalWithoutRegister { var },
            Diagnostic::ScriptTooLarge => Diagnostic::ScriptTooLarge,
            Diagnostic::NoSuchVariable { name } => Diagnostic::NoSuchVariable {
                name: ident_view(name),
            },
            Diagnostic::DuplicateMeta { keyword, previous } => Diagnostic::DuplicateMeta {
                keyword,
                previous,
            },
            Diagnostic::NamedMeta { name } => Diagnostic::NamedMeta { name: ident_view(name) },
            Diagnostic::UnexpectedMeta { keyword } => Diagnostic::UnexpectedMeta { keyword },
            Diagnostic::NumberedScript { span } => Diagnostic::NumberedScript { span },
            Diagnostic::ScriptNotMain { name } => Diagnostic::ScriptNotMain {
                name: ident_view(name),
            },
            Diagnostic::DuplicateMain { item, previous } => Diagnostic::DuplicateMain {
                item,
                previous,
            },
            Diagnostic::MissingMain => Diagnostic::MissingMain,
            Diagnostic::MissingMeta => Diagnostic::MissingMeta,
            Diagnostic::BadMeta(e) => Diagnostic::BadMeta(from_meta_error_view(e)),
        }
    }
}

/// A number of errors, in the order in which they were found.
#[derive(Debug)]
pub struct CompileError {
    pub errors: Vec<Error>,
}

impl View for CompileError {
    type V = Seq<ErrorV>;

    open spec fn view(&self) -> Seq<ErrorV> {
        self.errors@.map_values(|e: Error| e@)
    }
}

impl CompileError {
    pub fn new_empty() -> (r: CompileError)
        ensures
            r@ == Seq::<ErrorV>::empty(),
    {
        let r = CompileError { errors: Vec::new() };
        assert(r@ =~= Seq::<ErrorV>::empty());
        r
    }

    /// The error value that holds a single error.
    pub fn one(e: Error) -> (r: CompileError)
        ensures
            r@ == seq![e@],
    {
        let mut r = CompileError::new_empty();
        r.push(e);
        assert(r@ =~= seq![e@]);
        r
    }

    /// Add an error at the end.
    pub fn push(&mut self, e: Error)
        ensures
            final(self)@ == old(self)@.push(e@),
    {
        self.errors.push(e);
        assert(self@ =~= old(self)@.push(e@));
    }

    /// Add errors at the end.
    pub fn append(&mut self, other: CompileError)
        ensures
            final(self)@ == old(self)@ + other@,
    {
        let mut other = other;
        let ghost o = other;
        self.errors.append(&mut other.errors);
        assert(self@ =~= old(self)@ + o@);
    }

    pub fn is_empty(&self) -> (r: bool)
        ensures
            r == (self@.len() == 0),
    {
        self.errors.len() == 0
    }

    /// Succeed with a value if there is no error.
    pub fn into_result<T>(self, value: T) -> (r: Result<T, CompileError>)
        ensures
            self@.len() == 0 ==> r == Ok::<T, CompileError>(value),
            self@.len() != 0 ==> r == Err::<T, CompileError>(self),
    {
        if self.errors.len() == 0 {
            Ok(value)
        } else {
            Err(self)
        }
    }
}

} // verus!
