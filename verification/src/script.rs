//! Syntax tree of a timed script: the form in which statements carry their own time and labels.
//!
//! This is what the STD compiler works on.  Each type has a view, in which names are
//! sequences of characters and lists are sequences; contracts speak of the views.

pub mod copy;

use crate::float32::F32;
use crate::ident::Ident;
use crate::pos::{Sp, Spanned};
use crate::scope::VarId;
use vstd::prelude::*;

verus! {

/// A character that fixes the type of a variable where it is used: `$` or `%`.
#[derive(Debug, Copy, Clone, PartialEq, Eq, Hash, Structural)]
pub enum VarSigil {
    Int,
    Float,
}

/// Keyword of a local variable declaration.
#[derive(Debug, Copy, Clone, PartialEq, Eq, Hash, Structural)]
pub enum VarDeclKeyword {
    Int,
    Float,
    Var,
}

#[derive(Debug, Copy, Clone, PartialEq, Eq, Hash, Structural)]
pub enum CondKeyword {
    If,
}

#[derive(Debug, Copy, Clone, PartialEq, Eq, Hash, Structural)]
pub enum MetaKeyword {
    Meta,
    Entry,
}

#[derive(Debug, Copy, Clone, PartialEq, Eq, PartialOrd, Ord, Hash, Structural)]
pub enum AssignOpKind {
    Assign,
    Add,
    Sub,
    Mul,
    Div,
    Rem,
    BitOr,
    BitXor,
    BitAnd,
}

#[derive(Debug, Copy, Clone, PartialEq, Eq, PartialOrd, Ord, Hash, Structural)]
pub enum BinopKind {
    Add,
    Sub,
    Mul,
    Div,
    Rem,
    Eq,
    Ne,
    Lt,
    Le,
    Gt,
    Ge,
    LogicOr,
    LogicAnd,
    BitXor,
    BitAnd,
    BitOr,
}

#[derive(Debug, Copy, Clone, PartialEq, Eq, PartialOrd, Ord, Hash, Structural)]
pub enum UnopKind {
    Not,
    Neg,
}

#[derive(Debug)]
pub enum Var {
    /// A name that has not been resolved yet.
    Named { ty_sigil: Option<VarSigil>, ident: Ident },
    /// A variable that a name was resolved to.
    Local { ty_sigil: Option<VarSigil>, var_id: VarId },
    /// A register written by its number.
    Register { ty_sigil: Option<VarSigil>, reg: i32 },
}

#[derive(Debug)]
#[allow(inconsistent_fields)]
pub enum Expr {
    Ternary { cond: Box<Sp<Expr>>, left: Box<Sp<Expr>>, right: Box<Sp<Expr>> },
    Binop(Box<Sp<Expr>>, Sp<BinopKind>, Box<Sp<Expr>>),
    Call { func: Sp<Ident>, args: Vec<Sp<Expr>> },
    Unop(Sp<UnopKind>, Box<Sp<Expr>>),
    LitInt { value: i32, hex: bool },
    LitFloat { value: F32 },
    LitString { string: String },
    Var(Sp<Var>),
}

#[derive(Debug)]
pub enum Cond {
    /// `x--`
    Decrement(Sp<Var>),
    Expr(Sp<Expr>),
}

#[derive(Debug)]
pub struct StmtGoto {
    pub destination: Sp<Ident>,
    pub time: Option<i32>,
}

#[derive(Debug)]
pub enum StmtLabel {
    Label(Sp<Ident>),
    Difficulty { temporary: bool, flags: String },
}

/// The statements between a pair of braces.
#[derive(Debug)]
pub struct Block(pub Vec<Sp<Stmt>>);

#[derive(Debug)]
pub struct Stmt {
    pub time: i32,
    pub labels: Vec<Sp<StmtLabel>>,
    pub body: Sp<StmtBody>,
}

#[derive(Debug)]
#[allow(inconsistent_fields)]
pub enum StmtBody {
    Jump(StmtGoto),
    CondJump { keyword: Sp<CondKeyword>, cond: Sp<Cond>, jump: StmtGoto },
    Loop { block: Block },
    While { is_do_while: bool, cond: Sp<Cond>, block: Block },
    Expr(Sp<Expr>),
    Assignment { var: Sp<Var>, op: Sp<AssignOpKind>, value: Sp<Expr> },
    Declaration { keyword: VarDeclKeyword, vars: Vec<(Sp<Var>, Option<Sp<Expr>>)> },
    InterruptLabel(Sp<i32>),
    Label(Sp<Ident>),
    NoInstruction,
}

/// A value in a `meta` section.
#[derive(Debug)]
pub enum Meta {
    Scalar(Sp<Expr>),
    Array(Vec<Sp<Meta>>),
    Object(Sp<Fields>),
    Variant { name: Sp<Ident>, fields: Sp<Fields> },
}

/// The fields of an object in a `meta` section, in the order in which they are written.
#[derive(Debug)]
pub struct Fields(pub Vec<(Sp<Ident>, Sp<Meta>)>);

#[derive(Debug)]
#[allow(inconsistent_fields)]
pub enum Item {
    Meta { keyword: Sp<MetaKeyword>, name: Option<Sp<Ident>>, fields: Sp<Fields> },
    AnmScript { number: Option<Sp<i32>>, name: Sp<Ident>, code: Block },
    FileList { files: Vec<Sp<String>> },
    Func { name: Sp<Ident>, code: Option<Block> },
}

#[derive(Debug)]
pub struct Script {
    pub mapfiles: Vec<Sp<String>>,
    pub items: Vec<Sp<Item>>,
}

// =============================================================================
// Views

pub ghost enum VarV {
    Named { ty_sigil: Option<VarSigil>, ident: Seq<char> },
    Local { ty_sigil: Option<VarSigil>, var_id: VarId },
    Register { ty_sigil: Option<VarSigil>, reg: i32 },
}

#[allow(inconsistent_fields)]
pub ghost enum ExprV {
    Ternary { cond: Box<Sp<ExprV>>, left: Box<Sp<ExprV>>, right: Box<Sp<ExprV>> },
    Binop(Box<Sp<ExprV>>, Sp<BinopKind>, Box<Sp<ExprV>>),
    Call { func: Sp<Seq<char>>, args: Seq<Sp<ExprV>> },
    Unop(Sp<UnopKind>, Box<Sp<ExprV>>),
    LitInt { value: i32, hex: bool },
    LitFloat { value: F32 },
    LitString { string: Seq<char> },
    Var(Sp<VarV>),
}

pub ghost enum CondV {
    Decrement(Sp<VarV>),
    Expr(Sp<ExprV>),
}

pub ghost struct GotoV {
    pub destination: Sp<Seq<char>>,
    pub time: Option<i32>,
}

pub ghost enum LabelV {
    Label(Sp<Seq<char>>),
    Difficulty { temporary: bool, flags: Seq<char> },
}

pub ghost struct StmtV {
    pub time: i32,
    pub labels: Seq<Sp<LabelV>>,
    pub body: Sp<BodyV>,
}

#[allow(inconsistent_fields)]
pub ghost enum BodyV {
    Jump(GotoV),
    CondJump { keyword: Sp<CondKeyword>, cond: Sp<CondV>, jump: GotoV },
    Loop { block: Seq<Sp<StmtV>> },
    While { is_do_while: bool, cond: Sp<CondV>, block: Seq<Sp<StmtV>> },
    Expr(Sp<ExprV>),
    Assignment { var: Sp<VarV>, op: Sp<AssignOpKind>, value: Sp<ExprV> },
    Declaration { keyword: VarDeclKeyword, vars: Seq<(Sp<VarV>, Option<Sp<ExprV>>)> },
    InterruptLabel(Sp<i32>),
    Label(Sp<Seq<char>>),
    NoInstruction,
}

pub ghost enum MetaV {
    Scalar(Sp<ExprV>),
    Array(Seq<Sp<MetaV>>),
    Object(Sp<Seq<(Sp<Seq<char>>, Sp<MetaV>)>>),
    Variant { name: Sp<Seq<char>>, fields: Sp<Seq<(Sp<Seq<char>>, Sp<MetaV>)>> },
}

#[allow(inconsistent_fields)]
pub ghost enum ItemV {
    Meta { keyword: Sp<MetaKeyword>, name: Option<Sp<Seq<char>>>, fields: Sp<Seq<(Sp<Seq<char>>, Sp<MetaV>)>> },
    AnmScript { number: Option<Sp<i32>>, name: Sp<Seq<char>>, code: Seq<Sp<StmtV>> },
    FileList { files: Seq<Sp<Seq<char>>> },
    Func { name: Sp<Seq<char>>, code: Option<Seq<Sp<StmtV>>> },
}

pub ghost struct ScriptV {
    pub mapfiles: Seq<Sp<Seq<char>>>,
    pub items: Seq<Sp<ItemV>>,
}

/// The view of a name with its place.
pub open spec fn ident_view(x: Sp<Ident>) -> Sp<Seq<char>> {
    Spanned { span: x.span, value: x.value@ }
}

pub open spec fn opt_ident_view(x: Option<Sp<Ident>>) -> Option<Sp<Seq<char>>> {
    match x {
        Some(x) => Some(ident_view(x)),
        None => None,
    }
}

pub open spec fn string_view(x: Sp<String>) -> Sp<Seq<char>> {
    Spanned { span: x.span, value: x.value@ }
}

impl View for Var {
    type V = VarV;

    open spec fn view(&self) -> VarV {
        match *self {
            Var::Named { ty_sigil, ident } => VarV::Named { ty_sigil, ident: ident@ },
            Var::Local { ty_sigil, var_id } => VarV::Local { ty_sigil, var_id },
            Var::Register { ty_sigil, reg } => VarV::Register { ty_sigil, reg },
        }
    }
}

impl Clone for Var {
    fn clone(&self) -> (r: Self)
        ensures
            r == *self,
    {
        match self {
            Var::Named { ty_sigil, ident } => Var::Named { ty_sigil: *ty_sigil, ident: ident.clone() },
            Var::Local { ty_sigil, var_id } => Var::Local { ty_sigil: *ty_sigil, var_id: *var_id },
            Var::Register { ty_sigil, reg } => Var::Register { ty_sigil: *ty_sigil, reg: *reg },
        }
    }
}

impl VarV {
    /// Whether two variables are the same but for their sigils.
    pub open spec fn same_upto_ty(self, other: VarV) -> bool {
        match (self, other) {
            (VarV::Named { ident: a, .. }, VarV::Named { ident: b, .. }) => a == b,
            (VarV::Local { var_id: a, .. }, VarV::Local { var_id: b, .. }) => a == b,
            (VarV::Register { reg: a, .. }, VarV::Register { reg: b, .. }) => a == b,
            _ => false,
        }
    }
}

impl Var {
    /// Tell whether two variables are the same, whatever types their sigils give them.
    pub fn eq_upto_ty(&self, other: &Var) -> (r: bool)
        ensures
            r == self@.same_upto_ty(other@),
    {
        match (self, other) {
            (Var::Named { ident: a, .. }, Var::Named { ident: b, .. }) => a.same(b),
            (Var::Local { var_id: a, .. }, Var::Local { var_id: b, .. }) => *a == *b,
            (Var::Register { reg: a, .. }, Var::Register { reg: b, .. }) => *a == *b,
            _ => false,
        }
    }
}

pub open spec fn var_view(x: Sp<Var>) -> Sp<VarV> {
    Spanned { span: x.span, value: x.value@ }
}

pub open spec fn expr_view(e: Sp<Expr>) -> Sp<ExprV>
    decreases e, 0nat,
{
    Spanned {
        span: e.span,
        value: match e.value {
            Expr::Ternary { cond, left, right } => ExprV::Ternary {
                cond: Box::new(expr_view(*cond)),
                left: Box::new(expr_view(*left)),
                right: Box::new(expr_view(*right)),
            },
            Expr::Binop(a, op, b) => ExprV::Binop(
                Box::new(expr_view(*a)),
                op,
                Box::new(expr_view(*b)),
            ),
            Expr::Call { func, args } => ExprV::Call {
                func: ident_view(func),
                args: exprs_view(args@, args@.len()),
            },
            Expr::Unop(op, b) => ExprV::Unop(op, Box::new(expr_view(*b))),
            Expr::LitInt { value, hex } => ExprV::LitInt { value, hex },
            Expr::LitFloat { value } => ExprV::LitFloat { value },
            Expr::LitString { string } => ExprV::LitString { string: string@ },
            Expr::Var(var) => ExprV::Var(var_view(var)),
        },
    }
}

/// The views of the first `n` expressions of a list.
pub open spec fn exprs_view(s: Seq<Sp<Expr>>, n: nat) -> Seq<Sp<ExprV>>
    decreases s, n,
{
    if n == 0 || n > s.len() {
        seq![]
    } else {
        exprs_view(s, (n - 1) as nat).push(expr_view(s[n - 1]))
    }
}

pub open spec fn cond_view(x: Sp<Cond>) -> Sp<CondV> {
    Spanned {
        span: x.span,
        value: match x.value {
            Cond::Decrement(var) => CondV::Decrement(var_view(var)),
            Cond::Expr(e) => CondV::Expr(expr_view(e)),
        },
    }
}

pub open spec fn goto_view(x: StmtGoto) -> GotoV {
    GotoV { destination: ident_view(x.destination), time: x.time }
}

pub open spec fn label_view(x: Sp<StmtLabel>) -> Sp<LabelV> {
    Spanned {
        span: x.span,
        value: match x.value {
            StmtLabel::Label(ident) => LabelV::Label(ident_view(ident)),
            StmtLabel::Difficulty { temporary, flags } => LabelV::Difficulty {
                temporary,
                flags: flags@,
            },
        },
    }
}

pub open spec fn decl_view(x: (Sp<Var>, Option<Sp<Expr>>)) -> (Sp<VarV>, Option<Sp<ExprV>>) {
    (
        var_view(x.0),
        match x.1 {
            Some(e) => Some(expr_view(e)),
            None => None,
        },
    )
}

pub open spec fn stmt_view(x: Sp<Stmt>) -> Sp<StmtV>
    decreases x, 0nat,
{
    Spanned {
        span: x.span,
        value: StmtV {
            time: x.value.time,
            labels: x.value.labels@.map_values(|l: Sp<StmtLabel>| label_view(l)),
            body: body_view(x.value.body),
        },
    }
}

pub open spec fn body_view(x: Sp<StmtBody>) -> Sp<BodyV>
    decreases x, 0nat,
{
    Spanned {
        span: x.span,
        value: match x.value {
            StmtBody::Jump(goto) => BodyV::Jump(goto_view(goto)),
            StmtBody::CondJump { keyword, cond, jump } => BodyV::CondJump {
                keyword,
                cond: cond_view(cond),
                jump: goto_view(jump),
            },
            StmtBody::Loop { block } => BodyV::Loop {
                block: stmts_view(block.0@, block.0@.len()),
            },
            StmtBody::While { is_do_while, cond, block } => BodyV::While {
                is_do_while,
                cond: cond_view(cond),
                block: stmts_view(block.0@, block.0@.len()),
            },
            StmtBody::Expr(e) => BodyV::Expr(expr_view(e)),
            StmtBody::Assignment { var, op, value } => BodyV::Assignment {
                var: var_view(var),
                op,
                value: expr_view(value),
            },
            StmtBody::Declaration { keyword, vars } => BodyV::Declaration {
                keyword,
                vars: decls_view(vars@),
            },
            StmtBody::InterruptLabel(n) => BodyV::InterruptLabel(n),
            StmtBody::Label(ident) => BodyV::Label(ident_view(ident)),
            StmtBody::NoInstruction => BodyV::NoInstruction,
        },
    }
}

/// The views of the first `n` statements of a list.
pub open spec fn stmts_view(s: Seq<Sp<Stmt>>, n: nat) -> Seq<Sp<StmtV>>
    decreases s, n,
{
    if n == 0 || n > s.len() {
        seq![]
    } else {
        stmts_view(s, (n - 1) as nat).push(stmt_view(s[n - 1]))
    }
}

impl View for Block {
    type V = Seq<Sp<StmtV>>;

    open spec fn view(&self) -> Seq<Sp<StmtV>> {
        stmts_view(self.0@, self.0@.len())
    }
}

pub open spec fn meta_view(x: Sp<Meta>) -> Sp<MetaV>
    decreases x, 0nat,
{
    Spanned {
        span: x.span,
        value: match x.value {
            Meta::Scalar(e) => MetaV::Scalar(expr_view(e)),
            Meta::Array(items) => MetaV::Array(metas_view(items@, items@.len())),
            Meta::Object(fields) => MetaV::Object(
                Spanned {
                    span: fields.span,
                    value: field_seq_view(fields.value.0@, fields.value.0@.len()),
                },
            ),
            Meta::Variant { name, fields } => MetaV::Variant {
                name: ident_view(name),
                fields: Spanned {
                    span: fields.span,
                    value: field_seq_view(fields.value.0@, fields.value.0@.len()),
                },
            },
        },
    }
}

/// The views of the first `n` values of a list.
pub open spec fn metas_view(s: Seq<Sp<Meta>>, n: nat) -> Seq<Sp<MetaV>>
    decreases s, n,
{
    if n == 0 || n > s.len() {
        seq![]
    } else {
        metas_view(s, (n - 1) as nat).push(meta_view(s[n - 1]))
    }
}

/// The views of the first `n` fields of a list.
pub open spec fn field_seq_view(s: Seq<(Sp<Ident>, Sp<Meta>)>, n: nat) -> Seq<
    (Sp<Seq<char>>, Sp<MetaV>),
>
    decreases s, n,
{
    if n == 0 || n > s.len() {
        seq![]
    } else {
        field_seq_view(s, (n - 1) as nat).push((ident_view(s[n - 1].0), meta_view(s[n - 1].1)))
    }
}

impl View for Fields {
    type V = Seq<(Sp<Seq<char>>, Sp<MetaV>)>;

    open spec fn view(&self) -> Seq<(Sp<Seq<char>>, Sp<MetaV>)> {
        field_seq_view(self.0@, self.0@.len())
    }
}

pub open spec fn fields_view(x: Sp<Fields>) -> Sp<Seq<(Sp<Seq<char>>, Sp<MetaV>)>> {
    Spanned { span: x.span, value: x.value@ }
}

pub open spec fn item_view(x: Sp<Item>) -> Sp<ItemV> {
    Spanned {
        span: x.span,
        value: match x.value {
            Item::Meta { keyword, name, fields } => ItemV::Meta {
                keyword,
                name: opt_ident_view(name),
                fields: fields_view(fields),
            },
            Item::AnmScript { number, name, code } => ItemV::AnmScript {
                number,
                name: ident_view(name),
                code: code@,
            },
            Item::FileList { files } => ItemV::FileList {
                files: files@.map_values(|f: Sp<String>| string_view(f)),
            },
            Item::Func { name, code } => ItemV::Func {
                name: ident_view(name),
                code: match code {
                    Some(block) => Some(block@),
                    None => None,
                },
            },
        },
    }
}

/// The views of the items of a script.
pub open spec fn items_view(items: Seq<Sp<Item>>) -> Seq<Sp<ItemV>> {
    items.map_values(|x: Sp<Item>| item_view(x))
}

/// The views of the variables of a declaration.
pub open spec fn decls_view(
    vars: Seq<(Sp<Var>, Option<Sp<Expr>>)>,
) -> Seq<(Sp<VarV>, Option<Sp<ExprV>>)> {
    vars.map_values(|d: (Sp<Var>, Option<Sp<Expr>>)| decl_view(d))
}

impl View for Script {
    type V = ScriptV;

    open spec fn view(&self) -> ScriptV {
        ScriptV {
            mapfiles: self.mapfiles@.map_values(|f: Sp<String>| string_view(f)),
            items: items_view(self.items@),
        }
    }
}

pub proof fn lemma_exprs_view(s: Seq<Sp<Expr>>, n: nat)
    requires
        n <= s.len(),
    ensures
        exprs_view(s, n).len() == n,
        forall|i: int| 0 <= i < n ==> #[trigger] exprs_view(s, n)[i] == expr_view(s[i]),
    decreases n,
{
    if n > 0 {
        lemma_exprs_view(s, (n - 1) as nat);
    }
}

pub proof fn lemma_stmts_view(s: Seq<Sp<Stmt>>, n: nat)
    requires
        n <= s.len(),
    ensures
        stmts_view(s, n).len() == n,
        forall|i: int| 0 <= i < n ==> #[trigger] stmts_view(s, n)[i] == stmt_view(s[i]),
    decreases n,
{
    if n > 0 {
        lemma_stmts_view(s, (n - 1) as nat);
    }
}

pub proof fn lemma_metas_view(s: Seq<Sp<Meta>>, n: nat)
    requires
        n <= s.len(),
    ensures
        metas_view(s, n).len() == n,
        forall|i: int| 0 <= i < n ==> #[trigger] metas_view(s, n)[i] == meta_view(s[i]),
    decreases n,
{
    if n > 0 {
        lemma_metas_view(s, (n - 1) as nat);
    }
}

pub proof fn lemma_field_seq_view(s: Seq<(Sp<Ident>, Sp<Meta>)>, n: nat)
    requires
        n <= s.len(),
    ensures
        field_seq_view(s, n).len() == n,
        forall|i: int|
            0 <= i < n ==> #[trigger] field_seq_view(s, n)[i] == (
                ident_view(s[i].0),
                meta_view(s[i].1),
            ),
    decreases n,
{
    if n > 0 {
        lemma_field_seq_view(s, (n - 1) as nat);
    }
}

} // verus!
