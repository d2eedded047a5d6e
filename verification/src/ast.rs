//! Syntax tree of the scripting language.

pub mod visit;

use crate::float32::F32;
use crate::game::LanguageKey;
use crate::ident::{ins_name, Ident, ResIdent};
use crate::pos::{Sp, Span};
use crate::resolve::{DefId, LoopId, NodeId, RegId};
use crate::value;
use vstd::prelude::*;

verus! {

/// Type used in the AST for the span of a single token with no useful data.
///
/// This can be used for things like keywords.
pub type TokenSpan = Sp<()>;

/// Represents a complete script file.
#[derive(Debug)]
pub struct ScriptFile {
    pub mapfiles: Vec<Sp<LitString>>,
    pub image_sources: Vec<Sp<LitString>>,
    pub items: Vec<Sp<Item>>,
}

#[derive(Debug)]
#[allow(inconsistent_fields)]
pub enum Item {
    Func(ItemFunc),
    AnmScript { keyword: TokenSpan, number: Option<Sp<i32>>, ident: Sp<Ident>, code: Block },
    Timeline { keyword: TokenSpan, number: Option<Sp<i32>>, ident: Option<Sp<Ident>>, code: Block },
    Meta { keyword: Sp<MetaKeyword>, fields: Sp<Fields> },
    ConstVar { ty_keyword: Sp<TypeKeyword>, vars: Vec<Sp<(Sp<Var>, Sp<Expr>)>> },
}

#[derive(Debug)]
pub struct ItemFunc {
    pub qualifier: Option<Sp<FuncQualifier>>,
    pub ty_keyword: Sp<TypeKeyword>,
    pub ident: Sp<ResIdent>,
    pub params: Vec<Sp<FuncParam>>,
    /// `Some` for definitions, `None` for declarations.
    pub code: Option<Block>,
}

#[derive(Debug)]
pub struct FuncParam {
    pub ty_keyword: Sp<TypeKeyword>,
    pub ident: Option<Sp<ResIdent>>,
}

/// A value in a section of data.
#[derive(Debug)]
pub enum Meta {
    Scalar(Sp<Expr>),
    Array(Vec<Sp<Meta>>),
    Object(Sp<Fields>),
    Variant { name: Sp<Ident>, fields: Sp<Fields> },
}

/// The fields of an object in a section of data, in the order in which they are written.
#[derive(Debug)]
pub struct Fields(pub Vec<(Sp<Ident>, Sp<Meta>)>);

impl Item {
    pub open spec fn descr_spec(self) -> Seq<char> {
        match self {
            Item::Func(func) => match func.qualifier {
                Some(q) => match q.value {
                    FuncQualifier::Const => "const function definition"@,
                    FuncQualifier::Inline => "inline function definition"@,
                },
                None => "exported function definition"@,
            },
            Item::AnmScript { .. } => "script"@,
            Item::Timeline { .. } => "timeline"@,
            Item::Meta { .. } => "meta"@,
            Item::ConstVar { .. } => "const definition"@,
        }
    }

    /// The item in words.
    pub fn descr(&self) -> (r: &'static str)
        ensures
            r@ == self.descr_spec(),
    {
        match self {
            Item::Func(func) => match func.qualifier {
                Some(q) => match q.value {
                    FuncQualifier::Const => "const function definition",
                    FuncQualifier::Inline => "inline function definition",
                },
                None => "exported function definition",
            },
            Item::AnmScript { .. } => "script",
            Item::Timeline { .. } => "timeline",
            Item::Meta { .. } => "meta",
            Item::ConstVar { .. } => "const definition",
        }
    }
}

// =============================================================================

#[derive(Debug)]
pub struct Stmt {
    pub node_id: Option<NodeId>,
    pub diff_label: Option<Sp<DiffLabel>>,
    pub kind: StmtKind,
}

/// Difficulty label. `{"ENH"}:`
#[derive(Debug)]
pub struct DiffLabel {
    /// Cached bitflag form of the difficulty mask.
    pub mask: Option<u32>,
    pub string: Sp<LitString>,
}

#[derive(Debug)]
#[allow(inconsistent_fields)]
pub enum StmtKind {
    /// Some items are allowed to appear as statements. (`const`s and functions)
    Item(Box<Sp<Item>>),
    /// Unconditional goto.  `goto label @ time;`
    Jump(StmtJumpKind),
    /// Conditional goto.  `if (a == b) goto label @ time;`
    CondJump { keyword: Sp<CondKeyword>, cond: Sp<Expr>, jump: StmtJumpKind },
    /// `return;` or `return expr;`
    Return { keyword: TokenSpan, value: Option<Sp<Expr>> },
    /// A chain of conditional blocks.  `if (...) { ... } else if (...) { ... } else { ... }`
    CondChain(StmtCondChain),
    /// Unconditional loop.  `loop { ... }`
    Loop { loop_id: Option<LoopId>, keyword: TokenSpan, block: Block },
    /// While loop.  `while (...) { ... }` or `do { ... } while (...);`
    While {
        loop_id: Option<LoopId>,
        while_keyword: TokenSpan,
        do_keyword: Option<TokenSpan>,
        cond: Sp<Expr>,
        block: Block,
    },
    /// Times loop.  `times(n) { ... }`
    Times {
        loop_id: Option<LoopId>,
        keyword: TokenSpan,
        clobber: Option<Sp<Var>>,
        count: Sp<Expr>,
        block: Block,
    },
    /// Expression followed by a semicolon.
    ///
    /// This is primarily for void-type "expressions" like raw instruction
    /// calls (which are grammatically indistinguishable from value-returning
    /// function calls).
    Expr(Sp<Expr>),
    /// Free-standing block.
    Block(Block),
    /// `a = expr;` or `a += expr;`
    Assignment { var: Sp<Var>, op: Sp<AssignOpKind>, value: Sp<Expr> },
    /// Local variable declaration `int a = 20;`. (`const` vars fall under [`Self::Item`] instead)
    Declaration { ty_keyword: Sp<TypeKeyword>, vars: Vec<Sp<(Sp<Var>, Option<Sp<Expr>>)>> },
    /// An explicit subroutine call. (ECL only)
    ///
    /// Will always have at least one of either the `@` or `async`.
    /// (otherwise, it will fall under `Expr` instead)
    CallSub {
        at_symbol: bool,
        async_: Option<CallAsyncKind>,
        func: Sp<Ident>,
        args: Vec<Sp<Expr>>,
    },
    /// An interrupt label: `interrupt[2]:`.
    InterruptLabel(Sp<i32>),
    /// An absolute time label: `30:` or `-30:`.
    AbsTimeLabel(Sp<i32>),
    /// A relative time label: `+30:`.  This value cannot be negative.
    RelTimeLabel {
        delta: Sp<i32>,
        // Lets the code formatter write the total time next to the label.
        _absolute_time_comment: Option<i32>,
    },
    /// A label `label:` that can be jumped to.
    Label(Sp<Ident>),
    /// A virtual statement that marks the end of a variable's lexical scope.
    ScopeEnd(DefId),
    /// A virtual statement that completely disappears during compilation.
    ///
    /// It is inserted at the beginning and end of code blocks so that they can hold time labels.
    NoInstruction,
}

impl StmtKind {
    pub open spec fn descr_spec(self) -> Seq<char> {
        match self {
            StmtKind::Item(item) => item.value.descr_spec(),
            StmtKind::Jump(StmtJumpKind::Goto(_)) => "goto"@,
            StmtKind::Jump(StmtJumpKind::BreakContinue { .. }) => "loop jump"@,
            StmtKind::CondJump { jump: StmtJumpKind::Goto(_), .. } => "conditional goto"@,
            StmtKind::CondJump { jump: StmtJumpKind::BreakContinue { .. }, .. } =>
                "conditional loop jump"@,
            StmtKind::Return { .. } => "return statement"@,
            StmtKind::CondChain(_) => "conditional chain"@,
            StmtKind::Loop { .. } => "loop"@,
            StmtKind::While { .. } => "while(..)"@,
            StmtKind::Times { .. } => "times(..)"@,
            StmtKind::Expr(_) => "expression statement"@,
            StmtKind::Block(_) => "block statement"@,
            StmtKind::Assignment { .. } => "assignment"@,
            StmtKind::Declaration { .. } => "var declaration"@,
            StmtKind::CallSub { .. } => "sub call"@,
            StmtKind::InterruptLabel(_) => "interrupt label"@,
            StmtKind::AbsTimeLabel(_) => "time label"@,
            StmtKind::RelTimeLabel { .. } => "time label"@,
            StmtKind::Label(_) => "label"@,
            StmtKind::ScopeEnd(_) => "<ScopeEnd>"@,
            StmtKind::NoInstruction => "<NoInstruction>"@,
        }
    }

    /// The statement in words.
    pub fn descr(&self) -> (r: &'static str)
        ensures
            r@ == self.descr_spec(),
    {
        match self {
            StmtKind::Item(item) => item.value.descr(),
            StmtKind::Jump(StmtJumpKind::Goto(_)) => "goto",
            StmtKind::Jump(StmtJumpKind::BreakContinue { .. }) => "loop jump",
            StmtKind::CondJump { jump: StmtJumpKind::Goto(_), .. } => "conditional goto",
            StmtKind::CondJump { jump: StmtJumpKind::BreakContinue { .. }, .. } =>
                "conditional loop jump",
            StmtKind::Return { .. } => "return statement",
            StmtKind::CondChain(_) => "conditional chain",
            StmtKind::Loop { .. } => "loop",
            StmtKind::While { .. } => "while(..)",
            StmtKind::Times { .. } => "times(..)",
            StmtKind::Expr(_) => "expression statement",
            StmtKind::Block(_) => "block statement",
            StmtKind::Assignment { .. } => "assignment",
            StmtKind::Declaration { .. } => "var declaration",
            StmtKind::CallSub { .. } => "sub call",
            StmtKind::InterruptLabel(_) => "interrupt label",
            StmtKind::AbsTimeLabel(_) => "time label",
            StmtKind::RelTimeLabel { .. } => "time label",
            StmtKind::Label(_) => "label",
            StmtKind::ScopeEnd(_) => "<ScopeEnd>",
            StmtKind::NoInstruction => "<NoInstruction>",
        }
    }
}

#[derive(Debug)]
pub enum StmtJumpKind {
    /// The body of a `goto` statement, without the `;`.
    Goto(StmtGoto),
    /// A `break` or `continue`.
    BreakContinue {
        keyword: Sp<BreakContinueKeyword>,
        /// This is used to prevent or detect bugs where a `break` or `continue` could somehow
        /// end up referring to the wrong loop after a code transformation.
        loop_id: Option<LoopId>,
    },
}

#[derive(Debug)]
pub struct StmtGoto {
    pub destination: Sp<Ident>,
    pub time: Option<Sp<i32>>,
}

#[derive(Debug)]
pub struct StmtCondChain {
    pub cond_blocks: Vec<CondBlock>,
    pub else_block: Option<Block>,
}

impl StmtCondChain {
    /// A chain has at least one block.
    pub open spec fn wf(self) -> bool {
        self.cond_blocks@.len() > 0 || self.else_block is Some
    }

    pub open spec fn last_block_spec(self) -> Block {
        match self.else_block {
            Some(block) => block,
            None => self.cond_blocks@.last().block,
        }
    }

    /// The block that comes last.
    pub fn last_block(&self) -> (r: &Block)
        requires
            self.wf(),
        ensures
            *r == self.last_block_spec(),
    {
        match &self.else_block {
            Some(block) => block,
            None => &self.cond_blocks[self.cond_blocks.len() - 1].block,
        }
    }
}

#[derive(Debug)]
pub struct CondBlock {
    pub keyword: Sp<CondKeyword>,
    pub cond: Sp<Expr>,
    pub block: Block,
}

#[derive(Debug)]
pub enum CallAsyncKind {
    CallAsync,
    CallAsyncId(Box<Sp<Expr>>),
}

pub type DifficultyLabel = String;

/// A braced series of statements, typically written at an increased indentation level.
///
/// Every block always has at least two [`Stmt`]s, as on creation it is bookended by dummy
/// statements to ensure it has a well-defined start and end time.
#[derive(Debug)]
pub struct Block(pub Vec<Sp<Stmt>>);

impl Block {
    pub open spec fn wf(self) -> bool {
        self.0@.len() > 0
    }

    /// Node ID for looking up e.g. the time label before the first statement in the loop body.
    pub fn start_node_id(&self) -> (r: NodeId)
        requires
            self.wf(),
            self.0@.first().value.node_id is Some,
        ensures
            Some(r) == self.0@.first().value.node_id,
    {
        self.first_stmt().value.node_id.unwrap()
    }

    /// Node ID for looking up e.g. the time label after the final statement in the loop body.
    pub fn end_node_id(&self) -> (r: NodeId)
        requires
            self.wf(),
            self.0@.last().value.node_id is Some,
        ensures
            Some(r) == self.0@.last().value.node_id,
    {
        self.last_stmt().value.node_id.unwrap()
    }

    /// Zero-length span at beginning of block interior.
    pub fn start_span(&self) -> (r: Span)
        requires
            self.wf(),
        ensures
            r == self.0@.first().span.start_span_spec(),
    {
        self.first_stmt().span.start_span()
    }

    /// Zero-length span at end of block interior.
    pub fn end_span(&self) -> (r: Span)
        requires
            self.wf(),
        ensures
            r == self.0@.last().span.end_span_spec(),
    {
        self.last_stmt().span.end_span()
    }

    pub fn first_stmt(&self) -> (r: &Sp<Stmt>)
        requires
            self.wf(),
        ensures
            *r == self.0@.first(),
    {
        &self.0[0]
    }

    pub fn last_stmt(&self) -> (r: &Sp<Stmt>)
        requires
            self.wf(),
        ensures
            *r == self.0@.last(),
    {
        &self.0[self.0.len() - 1]
    }
}

// =============================================================================

#[derive(Debug)]
#[allow(inconsistent_fields)]
pub enum Expr {
    Ternary {
        cond: Box<Sp<Expr>>,
        question: Sp<()>,
        left: Box<Sp<Expr>>,
        colon: Sp<()>,
        right: Box<Sp<Expr>>,
    },
    BinOp(Box<Sp<Expr>>, Sp<BinOpKind>, Box<Sp<Expr>>),
    UnOp(Sp<UnOpKind>, Box<Sp<Expr>>),
    /// `--` or `++`.
    XcrementOp { op: Sp<XcrementOpKind>, order: XcrementOpOrder, var: Sp<Var> },
    Var(Sp<Var>),
    Call(ExprCall),
    /// (a:b:c:d) syntax.  Always has at least two items.  Items aside from the first may be
    /// omitted (`None`).
    DiffSwitch(Vec<Option<Sp<Expr>>>),
    LitInt {
        value: i32,
        /// A hint to the formatter on how it should write the integer.
        radix: IntRadix,
    },
    LitFloat { value: F32 },
    LitString(LitString),
    LabelProperty { label: Sp<Ident>, keyword: Sp<LabelPropertyKeyword> },
    EnumConst { enum_name: Sp<Ident>, ident: Sp<ResIdent> },
}

#[derive(Debug, Copy, Clone, PartialEq, Eq, PartialOrd, Ord, Hash, Structural)]
pub enum IntRadix {
    /// Display as decimal.
    Dec,
    /// Display as hexadecimal, with an `0x` prefix.
    Hex,
    /// Display as potentially negative hexadecimal, with an `0x` prefix.
    SignedHex,
    /// Display as binary, with an `0b` prefix.
    Bin,
    /// Use `true` and `false` if the value is `1` or `0`.  Otherwise, fall back to decimal.
    Bool,
}

/// Whether an expression can be written into an instruction as it is.
pub open spec fn is_immediate(e: Expr) -> bool
    decreases e, 0nat,
{
    match e {
        Expr::LabelProperty { .. } => true,
        Expr::LitInt { .. } => true,
        Expr::LitFloat { .. } => true,
        Expr::LitString(_) => true,
        Expr::DiffSwitch(cases) => all_immediate(cases@, cases@.len()),
        _ => false,
    }
}

/// Whether the first `n` cases that are given can be written into an instruction as they are.
pub open spec fn all_immediate(cases: Seq<Option<Sp<Expr>>>, n: nat) -> bool
    decreases cases, n,
{
    if n == 0 || n > cases.len() {
        true
    } else {
        all_immediate(cases, (n - 1) as nat) && match cases[n - 1] {
            Some(case) => is_immediate(case.value),
            None => true,
        }
    }
}

proof fn lemma_not_immediate(cases: Seq<Option<Sp<Expr>>>, m: nat, n: nat)
    requires
        m <= n <= cases.len(),
        !all_immediate(cases, m),
    ensures
        !all_immediate(cases, n),
    decreases n,
{
    if m < n {
        lemma_not_immediate(cases, m, (n - 1) as nat);
    }
}

impl Expr {
    /// The literal of a numeric type that stands for a whole number.
    pub fn int_of_ty(value: i32, ty: value::ScalarType) -> (r: Expr)
        requires
            ty != value::ScalarType::String,
        ensures
            ty is Int ==> r == (Expr::LitInt { value, radix: IntRadix::Dec }),
            ty is Float ==> (r matches Expr::LitFloat { value: x } && x.bits == F32::bits_of_int(
                value as int,
            )),
    {
        match ty {
            value::ScalarType::Int => Expr::LitInt { value, radix: IntRadix::Dec },
            _ => Expr::LitFloat { value: F32::from_i32(value) },
        }
    }

    pub open spec fn descr_spec(self) -> Seq<char> {
        match self {
            Expr::Ternary { .. } => "ternary"@,
            Expr::BinOp(..) => "binary operator"@,
            Expr::UnOp(..) => "unary operator"@,
            Expr::XcrementOp { .. } => "in-place operator"@,
            Expr::Call(_) => "call expression"@,
            Expr::DiffSwitch(_) => "difficulty switch"@,
            Expr::LitInt { .. } => "literal integer"@,
            Expr::LabelProperty { .. } => "label property"@,
            Expr::LitFloat { .. } => "literal float"@,
            Expr::LitString(_) => "literal string"@,
            Expr::EnumConst { .. } => "enum const"@,
            Expr::Var(_) => "var expression"@,
        }
    }

    /// The expression in words.
    pub fn descr(&self) -> (r: &'static str)
        ensures
            r@ == self.descr_spec(),
    {
        match self {
            Expr::Ternary { .. } => "ternary",
            Expr::BinOp(..) => "binary operator",
            Expr::UnOp(..) => "unary operator",
            Expr::XcrementOp { .. } => "in-place operator",
            Expr::Call(_) => "call expression",
            Expr::DiffSwitch(_) => "difficulty switch",
            Expr::LitInt { .. } => "literal integer",
            Expr::LabelProperty { .. } => "label property",
            Expr::LitFloat { .. } => "literal float",
            Expr::LitString(_) => "literal string",
            Expr::EnumConst { .. } => "enum const",
            Expr::Var(_) => "var expression",
        }
    }

    /// Tell whether the expression can be written into an instruction as it is.
    pub fn can_lower_to_immediate(&self) -> (r: bool)
        ensures
            r == is_immediate(*self),
        decreases *self,
    {
        match self {
            Expr::LabelProperty { .. } => true,
            Expr::LitInt { .. } => true,
            Expr::LitFloat { .. } => true,
            Expr::LitString(_) => true,
            Expr::DiffSwitch(cases) => can_lower_all(cases),
            _ => false,
        }
    }
}

fn can_lower_all(cases: &Vec<Option<Sp<Expr>>>) -> (r: bool)
    ensures
        r == all_immediate(cases@, cases@.len()),
    decreases *cases,
{
    let mut i: usize = 0;
    while i < cases.len()
        invariant
            i <= cases@.len(),
            all_immediate(cases@, i as nat),
        decreases cases@.len() - i,
    {
        assert(decreases_to!(*cases => cases@[i as int]));
        if let Some(case) = &cases[i] {
            if !case.value.can_lower_to_immediate() {
                proof {
                    lemma_not_immediate(cases@, (i + 1) as nat, cases@.len());
                }
                return false;
            }
        }
        i = i + 1;
    }
    true
}

#[derive(Debug)]
pub struct ExprCall {
    // note: deliberately called 'name' instead of 'ident' so that you can
    //       match both this and the inner ident without shadowing
    pub name: Sp<CallableName>,
    /// Args beginning with `@` that represent raw pieces of an instruction.
    pub pseudos: Vec<Sp<PseudoArg>>,
    /// Positional args.  One should check [`Self::actually_has_args`] before using this.
    pub args: Vec<Sp<Expr>>,
}

/// Where the first blob is among the first `n` pseudo-args.
pub open spec fn blob_index(pseudos: Seq<Sp<PseudoArg>>, n: nat) -> Option<int>
    decreases n,
{
    if n == 0 {
        None
    } else if blob_index(pseudos, (n - 1) as nat) is Some {
        blob_index(pseudos, (n - 1) as nat)
    } else if pseudos[n - 1].value.kind.value is Blob {
        Some(n - 1)
    } else {
        None
    }
}

proof fn lemma_blob_stays(pseudos: Seq<Sp<PseudoArg>>, m: nat, n: nat)
    requires
        m <= n,
        blob_index(pseudos, m) is Some,
    ensures
        blob_index(pseudos, n) == blob_index(pseudos, m),
    decreases n,
{
    if m < n {
        lemma_blob_stays(pseudos, m, (n - 1) as nat);
    }
}

impl ExprCall {
    /// Extract a `@blob` pseudo-arg if one exists.
    pub fn blob(&self) -> (r: Option<&Sp<PseudoArg>>)
        ensures
            match blob_index(self.pseudos@, self.pseudos@.len()) {
                Some(i) => r == Some(&self.pseudos@[i]),
                None => r is None,
            },
    {
        let mut i: usize = 0;
        while i < self.pseudos.len()
            invariant
                i <= self.pseudos@.len(),
                blob_index(self.pseudos@, i as nat) is None,
            decreases self.pseudos@.len() - i,
        {
            if self.pseudos[i].value.kind.value == PseudoArgKind::Blob {
                proof {
                    lemma_blob_stays(self.pseudos@, (i + 1) as nat, self.pseudos@.len());
                }
                return Some(&self.pseudos[i]);
            }
            i = i + 1;
        }
        None
    }

    /// This returns `true` if [`Self::args`] actually represents a list of arguments.
    ///
    /// A counter-example would be a call with `@blob`.  Such a function call will have an
    /// empty argument list, but should not be misinterpreted as a call with 0 arity.
    pub fn actually_has_args(&self) -> (r: bool)
        ensures
            r == (blob_index(self.pseudos@, self.pseudos@.len()) is None),
    {
        self.blob().is_none()
    }
}

/// An identifier in a function call.
///
/// Raw instructions (`ins_`) are separately recognized so that they don't have to take part
/// in name resolution.
#[derive(Debug)]
pub enum CallableName {
    Normal {
        ident: ResIdent,
        /// The language whose instruction aliases name resolution considers.
        language_if_ins: Option<LanguageKey>,
    },
    Ins { opcode: u16, language: Option<LanguageKey> },
}

/// A variable mentioned by name, possibly with a type sigil.
#[derive(Debug)]
pub struct Var {
    pub ty_sigil: Option<VarSigil>,
    pub name: VarName,
}

#[derive(Debug)]
pub enum VarName {
    Normal {
        ident: ResIdent,
        /// The language whose register aliases name resolution considers.
        language_if_reg: Option<LanguageKey>,
    },
    Reg { reg: RegId, language: Option<LanguageKey> },
}

impl VarName {
    /// Construct from the identifier of a local, parameter, or constant. (but NOT a register alias)
    pub fn new_non_reg(ident: ResIdent) -> (r: VarName)
        ensures
            r == (VarName::Normal { ident, language_if_reg: None }),
    {
        VarName::Normal { ident, language_if_reg: None }
    }

    /// For use by the parser on idents that may or may not be register aliases.
    ///
    /// A later pass fills the language in.
    pub fn from_parsed_ident(ident: ResIdent) -> (r: VarName)
        ensures
            r == (VarName::Normal { ident, language_if_reg: None }),
    {
        VarName::Normal { ident, language_if_reg: None }
    }

    /// Tell whether the variable is mentioned by a name.
    pub fn is_named(&self) -> (r: bool)
        ensures
            r == (*self is Normal),
    {
        match self {
            VarName::Normal { .. } => true,
            VarName::Reg { .. } => false,
        }
    }

    /// The name of a variable that has one, such as one in a declaration.
    pub fn expect_ident(&self) -> (r: &ResIdent)
        requires
            *self is Normal,
        ensures
            *r == self->ident,
    {
        match self {
            VarName::Normal { ident, .. } => ident,
            VarName::Reg { .. } => unreached(),
        }
    }
}

/// A keyword before a function.
#[derive(Debug, Copy, Clone, PartialEq, Eq, PartialOrd, Ord, Hash, Structural)]
pub enum FuncQualifier {
    Const,
    Inline,
}

impl FuncQualifier {
    pub open spec fn as_str_spec(self) -> Seq<char> {
        match self {
            FuncQualifier::Const => "const"@,
            FuncQualifier::Inline => "inline"@,
        }
    }

    /// The text that stands for it in a script.
    pub fn as_str(self) -> (r: &'static str)
        ensures
            r@ == self.as_str_spec(),
    {
        match self {
            FuncQualifier::Const => "const",
            FuncQualifier::Inline => "inline",
        }
    }
}

/// The keyword of a section of data.
#[derive(Debug, Copy, Clone, PartialEq, Eq, PartialOrd, Ord, Hash, Structural)]
pub enum MetaKeyword {
    /// `entry` block for a texture in ANM.
    Entry,
    Meta,
}

impl MetaKeyword {
    pub open spec fn as_str_spec(self) -> Seq<char> {
        match self {
            MetaKeyword::Entry => "entry"@,
            MetaKeyword::Meta => "meta"@,
        }
    }

    /// The text that stands for it in a script.
    pub fn as_str(self) -> (r: &'static str)
        ensures
            r@ == self.as_str_spec(),
    {
        match self {
            MetaKeyword::Entry => "entry",
            MetaKeyword::Meta => "meta",
        }
    }
}

/// The keyword of a jump out of a loop.
#[derive(Debug, Copy, Clone, PartialEq, Eq, PartialOrd, Ord, Hash, Structural)]
pub enum BreakContinueKeyword {
    Break,
}

impl BreakContinueKeyword {
    pub open spec fn as_str_spec(self) -> Seq<char> {
        match self {
            BreakContinueKeyword::Break => "break"@,
        }
    }

    /// The text that stands for it in a script.
    pub fn as_str(self) -> (r: &'static str)
        ensures
            r@ == self.as_str_spec(),
    {
        match self {
            BreakContinueKeyword::Break => "break",
        }
    }
}

/// The keyword of a condition.
#[derive(Debug, Copy, Clone, PartialEq, Eq, PartialOrd, Ord, Hash, Structural)]
pub enum CondKeyword {
    If,
    Unless,
}

impl CondKeyword {
    pub open spec fn as_str_spec(self) -> Seq<char> {
        match self {
            CondKeyword::If => "if"@,
            CondKeyword::Unless => "unless"@,
        }
    }

    /// The text that stands for it in a script.
    pub fn as_str(self) -> (r: &'static str)
        ensures
            r@ == self.as_str_spec(),
    {
        match self {
            CondKeyword::If => "if",
            CondKeyword::Unless => "unless",
        }
    }
}

/// An operator that assigns.
#[derive(Debug, Copy, Clone, PartialEq, Eq, PartialOrd, Ord, Hash, Structural)]
pub enum AssignOpKind {
    Assign,
    Add,
    Sub,
    Mul,
    Div,
    Rem,
    BitOr,
    BitXor,
    BitAnd,
    ShiftLeft,
    ShiftRightSigned,
    ShiftRightUnsigned,
}

impl AssignOpKind {
    pub open spec fn as_str_spec(self) -> Seq<char> {
        match self {
            AssignOpKind::Assign => "="@,
            AssignOpKind::Add => "+="@,
            AssignOpKind::Sub => "-="@,
            AssignOpKind::Mul => "*="@,
            AssignOpKind::Div => "/="@,
            AssignOpKind::Rem => "%="@,
            AssignOpKind::BitOr => "|="@,
            AssignOpKind::BitXor => "^="@,
            AssignOpKind::BitAnd => "&="@,
            AssignOpKind::ShiftLeft => "<<="@,
            AssignOpKind::ShiftRightSigned => ">>="@,
            AssignOpKind::ShiftRightUnsigned => ">>>="@,
        }
    }

    /// The text that stands for it in a script.
    pub fn as_str(self) -> (r: &'static str)
        ensures
            r@ == self.as_str_spec(),
    {
        match self {
            AssignOpKind::Assign => "=",
            AssignOpKind::Add => "+=",
            AssignOpKind::Sub => "-=",
            AssignOpKind::Mul => "*=",
            AssignOpKind::Div => "/=",
            AssignOpKind::Rem => "%=",
            AssignOpKind::BitOr => "|=",
            AssignOpKind::BitXor => "^=",
            AssignOpKind::BitAnd => "&=",
            AssignOpKind::ShiftLeft => "<<=",
            AssignOpKind::ShiftRightSigned => ">>=",
            AssignOpKind::ShiftRightUnsigned => ">>>=",
        }
    }
}

impl AssignOpKind {
    pub open spec fn iter_spec() -> Seq<AssignOpKind> {
        seq![AssignOpKind::Assign, AssignOpKind::Add, AssignOpKind::Sub, AssignOpKind::Mul, AssignOpKind::Div, AssignOpKind::Rem, AssignOpKind::BitOr, AssignOpKind::BitXor, AssignOpKind::BitAnd, AssignOpKind::ShiftLeft, AssignOpKind::ShiftRightSigned, AssignOpKind::ShiftRightUnsigned]
    }

    /// All assign ops, in order.
    pub fn iter() -> (r: Vec<AssignOpKind>)
        ensures
            r@ == AssignOpKind::iter_spec(),
    {
        let r = vec![AssignOpKind::Assign, AssignOpKind::Add, AssignOpKind::Sub, AssignOpKind::Mul, AssignOpKind::Div, AssignOpKind::Rem, AssignOpKind::BitOr, AssignOpKind::BitXor, AssignOpKind::BitAnd, AssignOpKind::ShiftLeft, AssignOpKind::ShiftRightSigned, AssignOpKind::ShiftRightUnsigned];
        assert(r@ =~= AssignOpKind::iter_spec());
        r
    }
}

/// An operator between two operands.
#[derive(Debug, Copy, Clone, PartialEq, Eq, PartialOrd, Ord, Hash, Structural)]
pub enum BinOpKind {
    Add,
    Sub,
    Mul,
    Div,
    Rem,
    Eq,
    Ne,
    Lt,
    Le,
    Gt,
    Ge,
    BitOr,
    BitXor,
    BitAnd,
    LogicOr,
    LogicAnd,
    ShiftLeft,
    ShiftRightSigned,
    ShiftRightUnsigned,
}

impl BinOpKind {
    pub open spec fn as_str_spec(self) -> Seq<char> {
        match self {
            BinOpKind::Add => "+"@,
            BinOpKind::Sub => "-"@,
            BinOpKind::Mul => "*"@,
            BinOpKind::Div => "/"@,
            BinOpKind::Rem => "%"@,
            BinOpKind::Eq => "=="@,
            BinOpKind::Ne => "!="@,
            BinOpKind::Lt => "<"@,
            BinOpKind::Le => "<="@,
            BinOpKind::Gt => ">"@,
            BinOpKind::Ge => ">="@,
            BinOpKind::BitOr => "|"@,
            BinOpKind::BitXor => "^"@,
            BinOpKind::BitAnd => "&"@,
            BinOpKind::LogicOr => "||"@,
            BinOpKind::LogicAnd => "&&"@,
            BinOpKind::ShiftLeft => "<<"@,
            BinOpKind::ShiftRightSigned => ">>"@,
            BinOpKind::ShiftRightUnsigned => ">>>"@,
        }
    }

    /// The text that stands for it in a script.
    pub fn as_str(self) -> (r: &'static str)
        ensures
            r@ == self.as_str_spec(),
    {
        match self {
            BinOpKind::Add => "+",
            BinOpKind::Sub => "-",
            BinOpKind::Mul => "*",
            BinOpKind::Div => "/",
            BinOpKind::Rem => "%",
            BinOpKind::Eq => "==",
            BinOpKind::Ne => "!=",
            BinOpKind::Lt => "<",
            BinOpKind::Le => "<=",
            BinOpKind::Gt => ">",
            BinOpKind::Ge => ">=",
            BinOpKind::BitOr => "|",
            BinOpKind::BitXor => "^",
            BinOpKind::BitAnd => "&",
            BinOpKind::LogicOr => "||",
            BinOpKind::LogicAnd => "&&",
            BinOpKind::ShiftLeft => "<<",
            BinOpKind::ShiftRightSigned => ">>",
            BinOpKind::ShiftRightUnsigned => ">>>",
        }
    }
}

impl BinOpKind {
    pub open spec fn iter_spec() -> Seq<BinOpKind> {
        seq![BinOpKind::Add, BinOpKind::Sub, BinOpKind::Mul, BinOpKind::Div, BinOpKind::Rem, BinOpKind::Eq, BinOpKind::Ne, BinOpKind::Lt, BinOpKind::Le, BinOpKind::Gt, BinOpKind::Ge, BinOpKind::BitOr, BinOpKind::BitXor, BinOpKind::BitAnd, BinOpKind::LogicOr, BinOpKind::LogicAnd, BinOpKind::ShiftLeft, BinOpKind::ShiftRightSigned, BinOpKind::ShiftRightUnsigned]
    }

    /// All binops, in order.
    pub fn iter() -> (r: Vec<BinOpKind>)
        ensures
            r@ == BinOpKind::iter_spec(),
    {
        let r = vec![BinOpKind::Add, BinOpKind::Sub, BinOpKind::Mul, BinOpKind::Div, BinOpKind::Rem, BinOpKind::Eq, BinOpKind::Ne, BinOpKind::Lt, BinOpKind::Le, BinOpKind::Gt, BinOpKind::Ge, BinOpKind::BitOr, BinOpKind::BitXor, BinOpKind::BitAnd, BinOpKind::LogicOr, BinOpKind::LogicAnd, BinOpKind::ShiftLeft, BinOpKind::ShiftRightSigned, BinOpKind::ShiftRightUnsigned];
        assert(r@ =~= BinOpKind::iter_spec());
        r
    }
}

/// An operator before one operand.
#[derive(Debug, Copy, Clone, PartialEq, Eq, PartialOrd, Ord, Hash, Structural)]
pub enum UnOpKind {
    Not,
    Neg,
    BitNot,
    Sin,
    Cos,
    Sqrt,
    EncodeI,
    EncodeF,
    CastI,
    CastF,
}

impl UnOpKind {
    pub open spec fn as_str_spec(self) -> Seq<char> {
        match self {
            UnOpKind::Not => "!"@,
            UnOpKind::Neg => "-"@,
            UnOpKind::BitNot => "~"@,
            UnOpKind::Sin => "sin"@,
            UnOpKind::Cos => "cos"@,
            UnOpKind::Sqrt => "sqrt"@,
            UnOpKind::EncodeI => "$"@,
            UnOpKind::EncodeF => "%"@,
            UnOpKind::CastI => "int"@,
            UnOpKind::CastF => "float"@,
        }
    }

    /// The text that stands for it in a script.
    pub fn as_str(self) -> (r: &'static str)
        ensures
            r@ == self.as_str_spec(),
    {
        match self {
            UnOpKind::Not => "!",
            UnOpKind::Neg => "-",
            UnOpKind::BitNot => "~",
            UnOpKind::Sin => "sin",
            UnOpKind::Cos => "cos",
            UnOpKind::Sqrt => "sqrt",
            UnOpKind::EncodeI => "$",
            UnOpKind::EncodeF => "%",
            UnOpKind::CastI => "int",
            UnOpKind::CastF => "float",
        }
    }
}

impl UnOpKind {
    pub open spec fn iter_spec() -> Seq<UnOpKind> {
        seq![UnOpKind::Not, UnOpKind::Neg, UnOpKind::BitNot, UnOpKind::Sin, UnOpKind::Cos, UnOpKind::Sqrt, UnOpKind::EncodeI, UnOpKind::EncodeF, UnOpKind::CastI, UnOpKind::CastF]
    }

    /// All unops, in order.
    pub fn iter() -> (r: Vec<UnOpKind>)
        ensures
            r@ == UnOpKind::iter_spec(),
    {
        let r = vec![UnOpKind::Not, UnOpKind::Neg, UnOpKind::BitNot, UnOpKind::Sin, UnOpKind::Cos, UnOpKind::Sqrt, UnOpKind::EncodeI, UnOpKind::EncodeF, UnOpKind::CastI, UnOpKind::CastF];
        assert(r@ =~= UnOpKind::iter_spec());
        r
    }
}

/// An operator that counts a variable up or down.
#[derive(Debug, Copy, Clone, PartialEq, Eq, PartialOrd, Ord, Hash, Structural)]
pub enum XcrementOpKind {
    Inc,
    Dec,
}

impl XcrementOpKind {
    pub open spec fn as_str_spec(self) -> Seq<char> {
        match self {
            XcrementOpKind::Inc => "++"@,
            XcrementOpKind::Dec => "--"@,
        }
    }

    /// The text that stands for it in a script.
    pub fn as_str(self) -> (r: &'static str)
        ensures
            r@ == self.as_str_spec(),
    {
        match self {
            XcrementOpKind::Inc => "++",
            XcrementOpKind::Dec => "--",
        }
    }
}

impl XcrementOpKind {
    pub open spec fn iter_spec() -> Seq<XcrementOpKind> {
        seq![XcrementOpKind::Inc, XcrementOpKind::Dec]
    }

    /// All xcrement ops, in order.
    pub fn iter() -> (r: Vec<XcrementOpKind>)
        ensures
            r@ == XcrementOpKind::iter_spec(),
    {
        let r = vec![XcrementOpKind::Inc, XcrementOpKind::Dec];
        assert(r@ =~= XcrementOpKind::iter_spec());
        r
    }
}

/// Whether a variable is counted before or after it is read.
#[derive(Debug, Copy, Clone, PartialEq, Eq, PartialOrd, Ord, Hash, Structural)]
pub enum XcrementOpOrder {
    Pre,
    Post,
}

impl XcrementOpOrder {
    pub open spec fn iter_spec() -> Seq<XcrementOpOrder> {
        seq![XcrementOpOrder::Pre, XcrementOpOrder::Post]
    }

    /// All xcrement orders, in order.
    pub fn iter() -> (r: Vec<XcrementOpOrder>)
        ensures
            r@ == XcrementOpOrder::iter_spec(),
    {
        let r = vec![XcrementOpOrder::Pre, XcrementOpOrder::Post];
        assert(r@ =~= XcrementOpOrder::iter_spec());
        r
    }
}

/// The name of a pseudo-argument.
#[derive(Debug, Copy, Clone, PartialEq, Eq, PartialOrd, Ord, Hash, Structural)]
pub enum PseudoArgKind {
    Mask,
    Pop,
    Blob,
    ExtraArg,
}

impl PseudoArgKind {
    pub open spec fn as_str_spec(self) -> Seq<char> {
        match self {
            PseudoArgKind::Mask => "mask"@,
            PseudoArgKind::Pop => "pop"@,
            PseudoArgKind::Blob => "blob"@,
            PseudoArgKind::ExtraArg => "arg0"@,
        }
    }

    /// The text that stands for it in a script.
    pub fn as_str(self) -> (r: &'static str)
        ensures
            r@ == self.as_str_spec(),
    {
        match self {
            PseudoArgKind::Mask => "mask",
            PseudoArgKind::Pop => "pop",
            PseudoArgKind::Blob => "blob",
            PseudoArgKind::ExtraArg => "arg0",
        }
    }
}

/// What an expression asks of a label.
#[derive(Debug, Copy, Clone, PartialEq, Eq, PartialOrd, Ord, Hash, Structural)]
pub enum LabelPropertyKeyword {
    OffsetOf,
    TimeOf,
}

impl LabelPropertyKeyword {
    pub open spec fn as_str_spec(self) -> Seq<char> {
        match self {
            LabelPropertyKeyword::OffsetOf => "offsetof"@,
            LabelPropertyKeyword::TimeOf => "timeof"@,
        }
    }

    /// The text that stands for it in a script.
    pub fn as_str(self) -> (r: &'static str)
        ensures
            r@ == self.as_str_spec(),
    {
        match self {
            LabelPropertyKeyword::OffsetOf => "offsetof",
            LabelPropertyKeyword::TimeOf => "timeof",
        }
    }
}

/// The keyword of a type.
#[derive(Debug, Copy, Clone, PartialEq, Eq, PartialOrd, Ord, Hash, Structural)]
pub enum TypeKeyword {
    Int,
    Float,
    String,
    Var,
    Void,
}

impl TypeKeyword {
    pub open spec fn as_str_spec(self) -> Seq<char> {
        match self {
            TypeKeyword::Int => "int"@,
            TypeKeyword::Float => "float"@,
            TypeKeyword::String => "string"@,
            TypeKeyword::Var => "var"@,
            TypeKeyword::Void => "void"@,
        }
    }

    /// The text that stands for it in a script.
    pub fn as_str(self) -> (r: &'static str)
        ensures
            r@ == self.as_str_spec(),
    {
        match self {
            TypeKeyword::Int => "int",
            TypeKeyword::Float => "float",
            TypeKeyword::String => "string",
            TypeKeyword::Var => "var",
            TypeKeyword::Void => "void",
        }
    }
}

/// A type sigil on a variable.
#[derive(Debug, Copy, Clone, PartialEq, Eq, PartialOrd, Ord, Hash, Structural)]
pub enum VarSigil {
    Int,
    Float,
}

impl VarSigil {
    pub open spec fn as_str_spec(self) -> Seq<char> {
        match self {
            VarSigil::Int => "$"@,
            VarSigil::Float => "%"@,
        }
    }

    /// The text that stands for it in a script.
    pub fn as_str(self) -> (r: &'static str)
        ensures
            r@ == self.as_str_spec(),
    {
        match self {
            VarSigil::Int => "$",
            VarSigil::Float => "%",
        }
    }
}

impl CondKeyword {
    pub open spec fn negate_spec(self) -> CondKeyword {
        match self {
            CondKeyword::If => CondKeyword::Unless,
            CondKeyword::Unless => CondKeyword::If,
        }
    }

    /// The keyword of the opposite condition.
    pub fn negate(self) -> (r: CondKeyword)
        ensures
            r == self.negate_spec(),
    {
        match self {
            CondKeyword::If => CondKeyword::Unless,
            CondKeyword::Unless => CondKeyword::If,
        }
    }
}

/// The opposite of the opposite of a condition is the condition.
pub proof fn law_negate_is_involutive(keyword: CondKeyword, op: BinOpKind)
    ensures
        keyword.negate_spec().negate_spec() == keyword,
        op.negate_comparison_spec() matches Some(other) ==> other.negate_comparison_spec() == Some(
            op,
        ),
        op.negate_comparison_spec() is Some <==> op.class_spec() is Comparison,
{
}

/// What kind of operation an operator stands for.
#[derive(Debug, Copy, Clone, PartialEq, Eq, PartialOrd, Ord, Hash, Structural)]
pub enum OpClass {
    Arithmetic,
    Comparison,
    Bitwise,
    Shift,
    Logical,
    FloatMath,
    TySigil,
    Cast,
    DirectAssignment,
}

impl OpClass {
    pub open spec fn descr_spec(self) -> Seq<char> {
        match self {
            OpClass::Arithmetic => "arithmetic"@,
            OpClass::Comparison => "comparison"@,
            OpClass::Bitwise => "bitwise"@,
            OpClass::Shift => "shift"@,
            OpClass::Logical => "logical"@,
            OpClass::FloatMath => "mathematical"@,
            OpClass::Cast => "cast"@,
            OpClass::TySigil => "sigil"@,
            OpClass::DirectAssignment => "direct"@,
        }
    }

    /// The kind of operation in words.
    pub fn descr(&self) -> (r: &'static str)
        ensures
            r@ == self.descr_spec(),
    {
        match self {
            OpClass::Arithmetic => "arithmetic",
            OpClass::Comparison => "comparison",
            OpClass::Bitwise => "bitwise",
            OpClass::Shift => "shift",
            OpClass::Logical => "logical",
            OpClass::FloatMath => "mathematical",
            OpClass::Cast => "cast",
            OpClass::TySigil => "sigil",
            OpClass::DirectAssignment => "direct",
        }
    }
}

impl AssignOpKind {
    pub open spec fn class_spec(self) -> OpClass {
        match self {
            AssignOpKind::Assign => OpClass::DirectAssignment,
            AssignOpKind::Add => OpClass::Arithmetic,
            AssignOpKind::Sub => OpClass::Arithmetic,
            AssignOpKind::Mul => OpClass::Arithmetic,
            AssignOpKind::Div => OpClass::Arithmetic,
            AssignOpKind::Rem => OpClass::Arithmetic,
            AssignOpKind::BitOr => OpClass::Bitwise,
            AssignOpKind::BitXor => OpClass::Bitwise,
            AssignOpKind::BitAnd => OpClass::Bitwise,
            AssignOpKind::ShiftLeft => OpClass::Shift,
            AssignOpKind::ShiftRightSigned => OpClass::Shift,
            AssignOpKind::ShiftRightUnsigned => OpClass::Shift,
        }
    }

    /// The kind of operation of the operator.
    pub fn class(self) -> (r: OpClass)
        ensures
            r == self.class_spec(),
    {
        match self {
            AssignOpKind::Assign => OpClass::DirectAssignment,
            AssignOpKind::Add | AssignOpKind::Sub | AssignOpKind::Mul | AssignOpKind::Div
            | AssignOpKind::Rem => OpClass::Arithmetic,
            AssignOpKind::BitOr | AssignOpKind::BitXor | AssignOpKind::BitAnd => OpClass::Bitwise,
            AssignOpKind::ShiftLeft | AssignOpKind::ShiftRightSigned
            | AssignOpKind::ShiftRightUnsigned => OpClass::Shift,
        }
    }

    pub open spec fn corresponding_binop_spec(self) -> Option<BinOpKind> {
        match self {
            AssignOpKind::Assign => None,
            AssignOpKind::Add => Some(BinOpKind::Add),
            AssignOpKind::Sub => Some(BinOpKind::Sub),
            AssignOpKind::Mul => Some(BinOpKind::Mul),
            AssignOpKind::Div => Some(BinOpKind::Div),
            AssignOpKind::Rem => Some(BinOpKind::Rem),
            AssignOpKind::BitOr => Some(BinOpKind::BitOr),
            AssignOpKind::BitXor => Some(BinOpKind::BitXor),
            AssignOpKind::BitAnd => Some(BinOpKind::BitAnd),
            AssignOpKind::ShiftLeft => Some(BinOpKind::ShiftLeft),
            AssignOpKind::ShiftRightSigned => Some(BinOpKind::ShiftRightSigned),
            AssignOpKind::ShiftRightUnsigned => Some(BinOpKind::ShiftRightUnsigned),
        }
    }

    /// The operator between the old value and the operand whose result is assigned.
    pub fn corresponding_binop(self) -> (r: Option<BinOpKind>)
        ensures
            r == self.corresponding_binop_spec(),
    {
        match self {
            AssignOpKind::Assign => None,
            AssignOpKind::Add => Some(BinOpKind::Add),
            AssignOpKind::Sub => Some(BinOpKind::Sub),
            AssignOpKind::Mul => Some(BinOpKind::Mul),
            AssignOpKind::Div => Some(BinOpKind::Div),
            AssignOpKind::Rem => Some(BinOpKind::Rem),
            AssignOpKind::BitOr => Some(BinOpKind::BitOr),
            AssignOpKind::BitXor => Some(BinOpKind::BitXor),
            AssignOpKind::BitAnd => Some(BinOpKind::BitAnd),
            AssignOpKind::ShiftLeft => Some(BinOpKind::ShiftLeft),
            AssignOpKind::ShiftRightSigned => Some(BinOpKind::ShiftRightSigned),
            AssignOpKind::ShiftRightUnsigned => Some(BinOpKind::ShiftRightUnsigned),
        }
    }
}

/// An operator that assigns is of the kind of the operator whose result it assigns.
pub proof fn law_assign_op_class(op: AssignOpKind)
    ensures
        op.corresponding_binop_spec() matches Some(binop) ==> binop.class_spec()
            == op.class_spec(),
        op.corresponding_binop_spec() is None <==> op is Assign,
{
}

impl BinOpKind {
    pub open spec fn class_spec(self) -> OpClass {
        match self {
            BinOpKind::Add => OpClass::Arithmetic,
            BinOpKind::Sub => OpClass::Arithmetic,
            BinOpKind::Mul => OpClass::Arithmetic,
            BinOpKind::Div => OpClass::Arithmetic,
            BinOpKind::Rem => OpClass::Arithmetic,
            BinOpKind::Eq => OpClass::Comparison,
            BinOpKind::Ne => OpClass::Comparison,
            BinOpKind::Lt => OpClass::Comparison,
            BinOpKind::Le => OpClass::Comparison,
            BinOpKind::Gt => OpClass::Comparison,
            BinOpKind::Ge => OpClass::Comparison,
            BinOpKind::BitOr => OpClass::Bitwise,
            BinOpKind::BitXor => OpClass::Bitwise,
            BinOpKind::BitAnd => OpClass::Bitwise,
            BinOpKind::LogicOr => OpClass::Logical,
            BinOpKind::LogicAnd => OpClass::Logical,
            BinOpKind::ShiftLeft => OpClass::Shift,
            BinOpKind::ShiftRightSigned => OpClass::Shift,
            BinOpKind::ShiftRightUnsigned => OpClass::Shift,
        }
    }

    /// The kind of operation of the operator.
    pub fn class(self) -> (r: OpClass)
        ensures
            r == self.class_spec(),
    {
        match self {
            BinOpKind::Add | BinOpKind::Sub | BinOpKind::Mul | BinOpKind::Div | BinOpKind::Rem =>
                OpClass::Arithmetic,
            BinOpKind::Eq | BinOpKind::Ne | BinOpKind::Lt | BinOpKind::Le | BinOpKind::Gt
            | BinOpKind::Ge => OpClass::Comparison,
            BinOpKind::BitOr | BinOpKind::BitXor | BinOpKind::BitAnd => OpClass::Bitwise,
            BinOpKind::LogicOr | BinOpKind::LogicAnd => OpClass::Logical,
            BinOpKind::ShiftLeft | BinOpKind::ShiftRightSigned
            | BinOpKind::ShiftRightUnsigned => OpClass::Shift,
        }
    }

    /// Tell whether the operator compares its operands.
    pub fn is_comparison(self) -> (r: bool)
        ensures
            r == (self.class_spec() is Comparison),
    {
        self.class() == OpClass::Comparison
    }

    /// The comparison ops, in order.
    pub fn iter_comparison() -> (r: Vec<BinOpKind>)
        ensures
            r@ == BinOpKind::iter_spec().filter(|op: BinOpKind| op.class_spec() is Comparison),
    {
        let all = BinOpKind::iter();
        let ghost pred = |op: BinOpKind| op.class_spec() is Comparison;
        let mut out: Vec<BinOpKind> = Vec::new();
        let mut i: usize = 0;
        proof {
            reveal(Seq::filter);
            assert(all@.take(0) =~= seq![]);
        }
        while i < all.len()
            invariant
                i <= all@.len(),
                pred == (|op: BinOpKind| op.class_spec() is Comparison),
                out@ == all@.take(i as int).filter(pred),
            decreases all@.len() - i,
        {
            proof {
                reveal(Seq::filter);
                assert(all@.take(i + 1).drop_last() =~= all@.take(i as int));
            }
            if all[i].is_comparison() {
                out.push(all[i]);
            }
            i = i + 1;
        }
        assert(all@.take(i as int) =~= all@);
        out
    }

    pub open spec fn negate_comparison_spec(self) -> Option<BinOpKind> {
        match self {
            BinOpKind::Eq => Some(BinOpKind::Ne),
            BinOpKind::Ne => Some(BinOpKind::Eq),
            BinOpKind::Le => Some(BinOpKind::Gt),
            BinOpKind::Ge => Some(BinOpKind::Lt),
            BinOpKind::Lt => Some(BinOpKind::Ge),
            BinOpKind::Gt => Some(BinOpKind::Le),
            _ => None,
        }
    }

    /// The comparison that holds where this one does not.
    pub fn negate_comparison(self) -> (r: Option<BinOpKind>)
        ensures
            r == self.negate_comparison_spec(),
    {
        match self {
            BinOpKind::Eq => Some(BinOpKind::Ne),
            BinOpKind::Ne => Some(BinOpKind::Eq),
            BinOpKind::Le => Some(BinOpKind::Gt),
            BinOpKind::Ge => Some(BinOpKind::Lt),
            BinOpKind::Lt => Some(BinOpKind::Ge),
            BinOpKind::Gt => Some(BinOpKind::Le),
            _ => None,
        }
    }
}

impl UnOpKind {
    pub open spec fn class_spec(self) -> OpClass {
        match self {
            UnOpKind::Not => OpClass::Logical,
            UnOpKind::Neg => OpClass::Arithmetic,
            UnOpKind::BitNot => OpClass::Bitwise,
            UnOpKind::Sin => OpClass::FloatMath,
            UnOpKind::Cos => OpClass::FloatMath,
            UnOpKind::Sqrt => OpClass::FloatMath,
            UnOpKind::CastI => OpClass::Cast,
            UnOpKind::CastF => OpClass::Cast,
            UnOpKind::EncodeI => OpClass::TySigil,
            UnOpKind::EncodeF => OpClass::TySigil,
        }
    }

    /// The kind of operation of the operator.
    pub fn class(&self) -> (r: OpClass)
        ensures
            r == self.class_spec(),
    {
        match self {
            UnOpKind::Not => OpClass::Logical,
            UnOpKind::Neg => OpClass::Arithmetic,
            UnOpKind::BitNot => OpClass::Bitwise,
            UnOpKind::Sin | UnOpKind::Cos | UnOpKind::Sqrt => OpClass::FloatMath,
            UnOpKind::CastI | UnOpKind::CastF => OpClass::Cast,
            UnOpKind::EncodeI | UnOpKind::EncodeF => OpClass::TySigil,
        }
    }

    pub open spec fn as_ty_sigil_spec(self) -> Option<VarSigil> {
        match self {
            UnOpKind::EncodeI => Some(VarSigil::Int),
            UnOpKind::EncodeF => Some(VarSigil::Float),
            _ => None,
        }
    }

    /// Convert the `%` and `$` operators into var sigils.
    pub fn as_ty_sigil(&self) -> (r: Option<VarSigil>)
        ensures
            r == self.as_ty_sigil_spec(),
    {
        match self {
            UnOpKind::EncodeI => Some(VarSigil::Int),
            UnOpKind::EncodeF => Some(VarSigil::Float),
            _ => None,
        }
    }

    /// Convert the `%`, `$`, `int`, and `float` operators into var sigils.
    pub fn as_ty_sigil_with_auto_cast(&self) -> (r: Option<VarSigil>)
        ensures
            r == match *self {
                UnOpKind::CastI => Some(VarSigil::Int),
                UnOpKind::CastF => Some(VarSigil::Float),
                _ => self.as_ty_sigil_spec(),
            },
    {
        match self {
            UnOpKind::CastI => Some(VarSigil::Int),
            UnOpKind::CastF => Some(VarSigil::Float),
            _ => self.as_ty_sigil(),
        }
    }

    /// Tell whether the operator converts to a type.
    pub fn is_cast_of_type(&self, ty: value::ScalarType) -> (r: bool)
        ensures
            r == (*self is CastI && ty is Int || *self is CastF && ty is Float),
    {
        match (self, ty) {
            (UnOpKind::CastI, value::ScalarType::Int) => true,
            (UnOpKind::CastF, value::ScalarType::Float) => true,
            _ => false,
        }
    }
}

#[derive(Debug)]
pub struct PseudoArg {
    pub at_sign: Sp<()>,
    pub kind: Sp<PseudoArgKind>,
    pub eq_sign: Sp<()>,
    pub value: Sp<Expr>,
}

impl PseudoArg {
    /// Whether the heading is a piece of one file, from the `@` to the `=`.
    pub open spec fn wf(self) -> bool {
        let (a, b) = (self.at_sign.span, self.eq_sign.span);
        a.file_id == b.file_id && a.wf() && b.wf()
    }

    /// Get the span that represents the "heading" of a pseudo arg. (everything but the value)
    pub fn tag_span(&self) -> (r: Span)
        requires
            self.wf(),
        ensures
            r == self.at_sign.span.merge_spec(self.eq_sign.span),
    {
        self.at_sign.span.merge(self.eq_sign.span)
    }
}

// =============================================================================

impl TypeKeyword {
    pub open spec fn var_ty_spec(self) -> value::VarType {
        match self {
            TypeKeyword::Int => value::VarType::Typed(value::ScalarType::Int),
            TypeKeyword::Float => value::VarType::Typed(value::ScalarType::Float),
            TypeKeyword::String => value::VarType::Typed(value::ScalarType::String),
            _ => value::VarType::Untyped { explicit: false },
        }
    }

    /// Get the type, when used on a keyword that comes from a [`Var`].
    pub fn var_ty(self) -> (r: value::VarType)
        requires
            !(self is Void),
        ensures
            r == self.var_ty_spec(),
    {
        match self {
            TypeKeyword::Int => value::VarType::Typed(value::ScalarType::Int),
            TypeKeyword::Float => value::VarType::Typed(value::ScalarType::Float),
            TypeKeyword::String => value::VarType::Typed(value::ScalarType::String),
            _ => value::VarType::Untyped { explicit: false },
        }
    }

    pub open spec fn expr_ty_spec(self) -> value::ExprType {
        match self {
            TypeKeyword::Int => value::ExprType::Value(value::ScalarType::Int),
            TypeKeyword::Float => value::ExprType::Value(value::ScalarType::Float),
            TypeKeyword::String => value::ExprType::Value(value::ScalarType::String),
            _ => value::ExprType::Void,
        }
    }

    /// Get the type, when used on a keyword for a return type.
    pub fn expr_ty(self) -> (r: value::ExprType)
        requires
            !(self is Var),
        ensures
            r == self.expr_ty_spec(),
    {
        match self {
            TypeKeyword::Int => value::ExprType::Value(value::ScalarType::Int),
            TypeKeyword::Float => value::ExprType::Value(value::ScalarType::Float),
            TypeKeyword::String => value::ExprType::Value(value::ScalarType::String),
            _ => value::ExprType::Void,
        }
    }

    /// The keyword of a type of variables.
    pub fn from_var_ty(ty: value::VarType) -> (r: TypeKeyword)
        ensures
            !(r is Void),
            ty is Typed ==> r.var_ty_spec() == ty,
            ty is Untyped ==> r is Var,
    {
        match ty {
            value::VarType::Typed(value::ScalarType::Int) => TypeKeyword::Int,
            value::VarType::Typed(value::ScalarType::Float) => TypeKeyword::Float,
            value::VarType::Typed(value::ScalarType::String) => TypeKeyword::String,
            value::VarType::Untyped { .. } => TypeKeyword::Var,
        }
    }

    /// The keyword of a return type.
    pub fn from_expr_ty(ty: value::ExprType) -> (r: TypeKeyword)
        ensures
            !(r is Var),
            r.expr_ty_spec() == ty,
    {
        match ty {
            value::ExprType::Value(value::ScalarType::Int) => TypeKeyword::Int,
            value::ExprType::Value(value::ScalarType::Float) => TypeKeyword::Float,
            value::ExprType::Value(value::ScalarType::String) => TypeKeyword::String,
            value::ExprType::Void => TypeKeyword::Void,
        }
    }
}

impl VarSigil {
    pub open spec fn ty_spec(self) -> value::ScalarType {
        match self {
            VarSigil::Int => value::ScalarType::Int,
            VarSigil::Float => value::ScalarType::Float,
        }
    }

    /// The type that the sigil gives to a variable.
    pub fn ty(self) -> (r: value::ScalarType)
        ensures
            r == self.ty_spec(),
    {
        match self {
            VarSigil::Int => value::ScalarType::Int,
            VarSigil::Float => value::ScalarType::Float,
        }
    }

    /// The sigil that gives a type to a variable, if there is one.
    pub fn from_ty(x: value::ScalarType) -> (r: Option<VarSigil>)
        ensures
            match r {
                Some(sigil) => sigil.ty_spec() == x,
                None => x is String,
            },
    {
        match x {
            value::ScalarType::Int => Some(VarSigil::Int),
            value::ScalarType::Float => Some(VarSigil::Float),
            value::ScalarType::String => None,
        }
    }
}

/// A string literal.
#[derive(Debug)]
pub struct LitString {
    pub string: String,
}

impl CallableName {
    pub open spec fn text_spec(self) -> Seq<char> {
        match self {
            CallableName::Normal { ident, .. } => ident.ident@,
            CallableName::Ins { opcode, .. } => ins_name(opcode),
        }
    }

    /// The name as it is written in a script.
    pub fn text(&self) -> (r: Ident)
        ensures
            r@ == self.text_spec(),
    {
        match self {
            CallableName::Normal { ident, .. } => ident.ident.clone(),
            CallableName::Ins { opcode, .. } => Ident::new_ins(*opcode),
        }
    }
}

} // verus!
