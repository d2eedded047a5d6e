//! The parts of syntax trees, in the order in which they are visited.
//!
//! The `walk` functions give the parts that are directly below a node; a part that has parts of its
//! own is given to the next one of them.

use crate::ast::{
    Block, CallableName, CondBlock, Expr, FuncParam, Item, Meta, PseudoArg, ScriptFile,
    Stmt, StmtJumpKind, StmtKind, Var, VarName,
};
use crate::ident::{Ident, ResIdent};
use crate::pos::Sp;
use crate::resolve::{LoopId, NodeId};
use vstd::prelude::*;

verus! {

/// A syntax tree of some kind.
#[derive(Debug, Copy, Clone)]
pub enum Node<'a> {
    File(&'a ScriptFile),
    Item(&'a Sp<Item>),
    Meta(&'a Sp<Meta>),
    /// The outermost block of a function.
    RootBlock(&'a Block),
    Stmt(&'a Sp<Stmt>),
    /// Statements that are not in a block.
    Stmts(&'a [Sp<Stmt>]),
    Expr(&'a Sp<Expr>),
}

/// Trait for using passes in a generic context.
///
/// The public API for most passes in [`crate::passes`] is a function with a bound on this trait.
///
/// Note: For [`Block`], this specifically gives [`Node::RootBlock`].
pub trait Visitable {
    spec fn node_spec(&self) -> Node<'_>;

    /// What kind of tree this is.
    fn node(&self) -> (r: Node<'_>)
        ensures
            r == self.node_spec(),
    ;
}

impl Visitable for ScriptFile {
    open spec fn node_spec(&self) -> Node<'_> {
        Node::File(self)
    }

    fn node(&self) -> (r: Node<'_>) {
        Node::File(self)
    }
}

impl Visitable for Sp<ScriptFile> {
    open spec fn node_spec(&self) -> Node<'_> {
        Node::File(&self.value)
    }

    fn node(&self) -> (r: Node<'_>) {
        Node::File(&self.value)
    }
}

impl Visitable for Sp<Block> {
    open spec fn node_spec(&self) -> Node<'_> {
        Node::RootBlock(&self.value)
    }

    fn node(&self) -> (r: Node<'_>) {
        Node::RootBlock(&self.value)
    }
}

impl Visitable for Sp<Item> {
    open spec fn node_spec(&self) -> Node<'_> {
        Node::Item(self)
    }

    fn node(&self) -> (r: Node<'_>) {
        Node::Item(self)
    }
}

impl Visitable for Sp<Meta> {
    open spec fn node_spec(&self) -> Node<'_> {
        Node::Meta(self)
    }

    fn node(&self) -> (r: Node<'_>) {
        Node::Meta(self)
    }
}

impl Visitable for Block {
    open spec fn node_spec(&self) -> Node<'_> {
        Node::RootBlock(self)
    }

    fn node(&self) -> (r: Node<'_>) {
        Node::RootBlock(self)
    }
}

impl Visitable for Sp<Stmt> {
    open spec fn node_spec(&self) -> Node<'_> {
        Node::Stmt(self)
    }

    fn node(&self) -> (r: Node<'_>) {
        Node::Stmt(self)
    }
}

impl Visitable for [Sp<Stmt>] {
    open spec fn node_spec(&self) -> Node<'_> {
        Node::Stmts(self)
    }

    fn node(&self) -> (r: Node<'_>) {
        Node::Stmts(self)
    }
}

impl Visitable for Sp<Expr> {
    open spec fn node_spec(&self) -> Node<'_> {
        Node::Expr(self)
    }

    fn node(&self) -> (r: Node<'_>) {
        Node::Expr(self)
    }
}

// =============================================================================

/// A part of a syntax tree.
#[derive(Debug, Copy, Clone)]
pub enum Part<'a> {
    Item(&'a Sp<Item>),
    /// The outermost block of a function.
    RootBlock(&'a Block),
    Block(&'a Block),
    Stmt(&'a Sp<Stmt>),
    Jump(&'a StmtJumpKind),
    Expr(&'a Sp<Expr>),
    /// An expression that is a condition, e.g. of `if` or `while`.
    Cond(&'a Sp<Expr>),
    Var(&'a Sp<Var>),
    CallableName(&'a Sp<CallableName>),
    Meta(&'a Sp<Meta>),
    ResIdent(&'a ResIdent),
    NodeId(&'a Option<NodeId>),
    /// The body of a loop follows.
    LoopBegin(&'a Option<LoopId>),
    /// The body of a loop came just before.
    LoopEnd(&'a Option<LoopId>),
}

/// The items of a list.
pub open spec fn item_parts<'a>(xs: &'a Vec<Sp<Item>>) -> Seq<Part<'a>> {
    Seq::new(xs@.len(), |i: int| Part::Item(&xs@[i]))
}

fn push_item<'a>(out: &mut Vec<Part<'a>>, xs: &'a Vec<Sp<Item>>)
    ensures
        final(out)@ == old(out)@ + item_parts(xs),
{
    let ghost parts = item_parts(xs);
    let mut i: usize = 0;
    assert(out@ =~= old(out)@ + parts.take(0));
    while i < xs.len()
        invariant
            i <= xs@.len(),
            parts == item_parts(xs),
            out@ == old(out)@ + parts.take(i as int),
        decreases xs@.len() - i,
    {
        out.push(Part::Item(&xs[i]));
        i = i + 1;
        assert(out@ =~= old(out)@ + parts.take(i as int));
    }
    assert(parts.take(i as int) =~= parts);
}

/// The statements of a list.
pub open spec fn stmt_parts<'a>(xs: &'a Vec<Sp<Stmt>>) -> Seq<Part<'a>> {
    Seq::new(xs@.len(), |i: int| Part::Stmt(&xs@[i]))
}

fn push_stmt<'a>(out: &mut Vec<Part<'a>>, xs: &'a Vec<Sp<Stmt>>)
    ensures
        final(out)@ == old(out)@ + stmt_parts(xs),
{
    let ghost parts = stmt_parts(xs);
    let mut i: usize = 0;
    assert(out@ =~= old(out)@ + parts.take(0));
    while i < xs.len()
        invariant
            i <= xs@.len(),
            parts == stmt_parts(xs),
            out@ == old(out)@ + parts.take(i as int),
        decreases xs@.len() - i,
    {
        out.push(Part::Stmt(&xs[i]));
        i = i + 1;
        assert(out@ =~= old(out)@ + parts.take(i as int));
    }
    assert(parts.take(i as int) =~= parts);
}

/// The expressions of a list.
pub open spec fn expr_parts<'a>(xs: &'a Vec<Sp<Expr>>) -> Seq<Part<'a>> {
    Seq::new(xs@.len(), |i: int| Part::Expr(&xs@[i]))
}

fn push_expr<'a>(out: &mut Vec<Part<'a>>, xs: &'a Vec<Sp<Expr>>)
    ensures
        final(out)@ == old(out)@ + expr_parts(xs),
{
    let ghost parts = expr_parts(xs);
    let mut i: usize = 0;
    assert(out@ =~= old(out)@ + parts.take(0));
    while i < xs.len()
        invariant
            i <= xs@.len(),
            parts == expr_parts(xs),
            out@ == old(out)@ + parts.take(i as int),
        decreases xs@.len() - i,
    {
        out.push(Part::Expr(&xs[i]));
        i = i + 1;
        assert(out@ =~= old(out)@ + parts.take(i as int));
    }
    assert(parts.take(i as int) =~= parts);
}

/// The values of a list.
pub open spec fn meta_parts<'a>(xs: &'a Vec<Sp<Meta>>) -> Seq<Part<'a>> {
    Seq::new(xs@.len(), |i: int| Part::Meta(&xs@[i]))
}

fn push_meta<'a>(out: &mut Vec<Part<'a>>, xs: &'a Vec<Sp<Meta>>)
    ensures
        final(out)@ == old(out)@ + meta_parts(xs),
{
    let ghost parts = meta_parts(xs);
    let mut i: usize = 0;
    assert(out@ =~= old(out)@ + parts.take(0));
    while i < xs.len()
        invariant
            i <= xs@.len(),
            parts == meta_parts(xs),
            out@ == old(out)@ + parts.take(i as int),
        decreases xs@.len() - i,
    {
        out.push(Part::Meta(&xs[i]));
        i = i + 1;
        assert(out@ =~= old(out)@ + parts.take(i as int));
    }
    assert(parts.take(i as int) =~= parts);
}

/// The values of fields.
pub open spec fn field_parts<'a>(xs: &'a Vec<(Sp<Ident>, Sp<Meta>)>) -> Seq<Part<'a>> {
    Seq::new(xs@.len(), |i: int| Part::Meta(&xs@[i].1))
}

fn push_field<'a>(out: &mut Vec<Part<'a>>, xs: &'a Vec<(Sp<Ident>, Sp<Meta>)>)
    ensures
        final(out)@ == old(out)@ + field_parts(xs),
{
    let ghost parts = field_parts(xs);
    let mut i: usize = 0;
    assert(out@ =~= old(out)@ + parts.take(0));
    while i < xs.len()
        invariant
            i <= xs@.len(),
            parts == field_parts(xs),
            out@ == old(out)@ + parts.take(i as int),
        decreases xs@.len() - i,
    {
        out.push(Part::Meta(&xs[i].1));
        i = i + 1;
        assert(out@ =~= old(out)@ + parts.take(i as int));
    }
    assert(parts.take(i as int) =~= parts);
}

/// The values of pseudo-arguments.
pub open spec fn pseudo_parts<'a>(xs: &'a Vec<Sp<PseudoArg>>) -> Seq<Part<'a>> {
    Seq::new(xs@.len(), |i: int| Part::Expr(&xs@[i].value.value))
}

fn push_pseudo<'a>(out: &mut Vec<Part<'a>>, xs: &'a Vec<Sp<PseudoArg>>)
    ensures
        final(out)@ == old(out)@ + pseudo_parts(xs),
{
    let ghost parts = pseudo_parts(xs);
    let mut i: usize = 0;
    assert(out@ =~= old(out)@ + parts.take(0));
    while i < xs.len()
        invariant
            i <= xs@.len(),
            parts == pseudo_parts(xs),
            out@ == old(out)@ + parts.take(i as int),
        decreases xs@.len() - i,
    {
        out.push(Part::Expr(&xs[i].value.value));
        i = i + 1;
        assert(out@ =~= old(out)@ + parts.take(i as int));
    }
    assert(parts.take(i as int) =~= parts);
}

/// The cases that are there.
pub open spec fn case_parts<'a>(xs: &'a Vec<Option<Sp<Expr>>>, n: nat) -> Seq<Part<'a>>
    decreases n,
{
    if n == 0 || n > xs@.len() {
        seq![]
    } else {
        case_parts(xs, (n - 1) as nat) + match xs@[n - 1] {
            Some(_) => seq![Part::Expr(&xs@[n - 1]->0)],
            None => seq![],
        }
    }
}

fn push_case<'a>(out: &mut Vec<Part<'a>>, xs: &'a Vec<Option<Sp<Expr>>>)
    ensures
        final(out)@ == old(out)@ + case_parts(xs, xs@.len()),
{
    let mut i: usize = 0;
    assert(out@ =~= old(out)@ + case_parts(xs, 0));
    while i < xs.len()
        invariant
            i <= xs@.len(),
            out@ == old(out)@ + case_parts(xs, i as nat),
        decreases xs@.len() - i,
    {
        if let Some(case) = &xs[i] {
            out.push(Part::Expr(case));
        }
        i = i + 1;
        assert(out@ =~= old(out)@ + case_parts(xs, i as nat));
    }
}

/// The names of the parameters that have one.
pub open spec fn param_parts<'a>(xs: &'a Vec<Sp<FuncParam>>, n: nat) -> Seq<Part<'a>>
    decreases n,
{
    if n == 0 || n > xs@.len() {
        seq![]
    } else {
        param_parts(xs, (n - 1) as nat) + match xs@[n - 1].value.ident {
            Some(_) => seq![Part::ResIdent(&xs@[n - 1].value.ident->0.value)],
            None => seq![],
        }
    }
}

fn push_param<'a>(out: &mut Vec<Part<'a>>, xs: &'a Vec<Sp<FuncParam>>)
    ensures
        final(out)@ == old(out)@ + param_parts(xs, xs@.len()),
{
    let mut i: usize = 0;
    assert(out@ =~= old(out)@ + param_parts(xs, 0));
    while i < xs.len()
        invariant
            i <= xs@.len(),
            out@ == old(out)@ + param_parts(xs, i as nat),
        decreases xs@.len() - i,
    {
        if let Some(ident) = &xs[i].value.ident {
            out.push(Part::ResIdent(&ident.value));
        }
        i = i + 1;
        assert(out@ =~= old(out)@ + param_parts(xs, i as nat));
    }
}

/// The variables of a declaration, each with its value.
pub open spec fn decl_parts<'a>(xs: &'a Vec<Sp<(Sp<Var>, Option<Sp<Expr>>)>>, n: nat) -> Seq<Part<'a>>
    decreases n,
{
    if n == 0 || n > xs@.len() {
        seq![]
    } else {
        decl_parts(xs, (n - 1) as nat) + seq![
            Part::Var(&xs@[n - 1].value.0),
        ] + match xs@[n - 1].value.1 {
            Some(_) => seq![Part::Expr(&xs@[n - 1].value.1->0)],
            None => seq![],
        }
    }
}

fn push_decl<'a>(out: &mut Vec<Part<'a>>, xs: &'a Vec<Sp<(Sp<Var>, Option<Sp<Expr>>)>>)
    ensures
        final(out)@ == old(out)@ + decl_parts(xs, xs@.len()),
{
    let mut i: usize = 0;
    assert(out@ =~= old(out)@ + decl_parts(xs, 0));
    while i < xs.len()
        invariant
            i <= xs@.len(),
            out@ == old(out)@ + decl_parts(xs, i as nat),
        decreases xs@.len() - i,
    {
        out.push(Part::Var(&xs[i].value.0));
        if let Some(value) = &xs[i].value.1 {
            out.push(Part::Expr(value));
        }
        i = i + 1;
        assert(out@ =~= old(out)@ + decl_parts(xs, i as nat));
    }
}

/// Constants, each with its value.
pub open spec fn const_parts<'a>(xs: &'a Vec<Sp<(Sp<Var>, Sp<Expr>)>>, n: nat) -> Seq<Part<'a>>
    decreases n,
{
    if n == 0 || n > xs@.len() {
        seq![]
    } else {
        const_parts(xs, (n - 1) as nat) + seq![
            Part::Var(&xs@[n - 1].value.0),
            Part::Expr(&xs@[n - 1].value.1),
        ]
    }
}

fn push_const<'a>(out: &mut Vec<Part<'a>>, xs: &'a Vec<Sp<(Sp<Var>, Sp<Expr>)>>)
    ensures
        final(out)@ == old(out)@ + const_parts(xs, xs@.len()),
{
    let mut i: usize = 0;
    assert(out@ =~= old(out)@ + const_parts(xs, 0));
    while i < xs.len()
        invariant
            i <= xs@.len(),
            out@ == old(out)@ + const_parts(xs, i as nat),
        decreases xs@.len() - i,
    {
        out.push(Part::Var(&xs[i].value.0));
        out.push(Part::Expr(&xs[i].value.1));
        i = i + 1;
        assert(out@ =~= old(out)@ + const_parts(xs, i as nat));
    }
}

/// The conditions of a chain, each with its block.
pub open spec fn cond_block_parts<'a>(xs: &'a Vec<CondBlock>, n: nat) -> Seq<Part<'a>>
    decreases n,
{
    if n == 0 || n > xs@.len() {
        seq![]
    } else {
        cond_block_parts(xs, (n - 1) as nat) + seq![
            Part::Cond(&xs@[n - 1].cond),
            Part::Block(&xs@[n - 1].block),
        ]
    }
}

fn push_cond_block<'a>(out: &mut Vec<Part<'a>>, xs: &'a Vec<CondBlock>)
    ensures
        final(out)@ == old(out)@ + cond_block_parts(xs, xs@.len()),
{
    let mut i: usize = 0;
    assert(out@ =~= old(out)@ + cond_block_parts(xs, 0));
    while i < xs.len()
        invariant
            i <= xs@.len(),
            out@ == old(out)@ + cond_block_parts(xs, i as nat),
        decreases xs@.len() - i,
    {
        out.push(Part::Cond(&xs[i].cond));
        out.push(Part::Block(&xs[i].block));
        i = i + 1;
        assert(out@ =~= old(out)@ + cond_block_parts(xs, i as nat));
    }
}

/// The body of a loop.
pub open spec fn loop_parts<'a>(loop_id: &'a Option<LoopId>, block: &'a Block) -> Seq<Part<'a>> {
    seq![Part::LoopBegin(loop_id), Part::Block(block), Part::LoopEnd(loop_id)]
}

fn push_loop<'a>(out: &mut Vec<Part<'a>>, loop_id: &'a Option<LoopId>, block: &'a Block)
    ensures
        final(out)@ == old(out)@ + loop_parts(loop_id, block),
{
    out.push(Part::LoopBegin(loop_id));
    out.push(Part::Block(block));
    out.push(Part::LoopEnd(loop_id));
    assert(out@ =~= old(out)@ + loop_parts(loop_id, block));
}

/// The parts of a file.
pub fn walk_file<'a>(x: &'a ScriptFile) -> (r: Vec<Part<'a>>)
    ensures
        r@ == item_parts(&x.items),
{
    let mut out: Vec<Part<'a>> = Vec::new();
    push_item(&mut out, &x.items);
    assert(out@ =~= item_parts(&x.items));
    out
}

pub open spec fn walk_item_spec<'a>(x: &'a Sp<Item>) -> Seq<Part<'a>> {
    match &x.value {
        Item::Func(func) => seq![Part::ResIdent(&func.ident.value)] + (match &func.code {
            Some(code) => seq![Part::RootBlock(code)],
            None => seq![],
        }) + param_parts(&func.params, func.params@.len()),
        Item::AnmScript { code, .. } => seq![Part::RootBlock(code)],
        Item::Timeline { code, .. } => seq![Part::RootBlock(code)],
        Item::Meta { fields, .. } => field_parts(&fields.value.0),
        Item::ConstVar { vars, .. } => const_parts(vars, vars@.len()),
    }
}

/// The parts of an item.
pub fn walk_item<'a>(x: &'a Sp<Item>) -> (r: Vec<Part<'a>>)
    ensures
        r@ == walk_item_spec(x),
{
    let mut out: Vec<Part<'a>> = Vec::new();
    match &x.value {
        Item::Func(func) => {
            out.push(Part::ResIdent(&func.ident.value));
            if let Some(code) = &func.code {
                out.push(Part::RootBlock(code));
            }
            push_param(&mut out, &func.params);
        },
        Item::AnmScript { code, .. } => out.push(Part::RootBlock(code)),
        Item::Timeline { code, .. } => out.push(Part::RootBlock(code)),
        Item::Meta { fields, .. } => push_field(&mut out, &fields.value.0),
        Item::ConstVar { vars, .. } => push_const(&mut out, vars),
    }
    assert(out@ =~= walk_item_spec(x));
    out
}

pub open spec fn walk_meta_spec<'a>(x: &'a Sp<Meta>) -> Seq<Part<'a>> {
    match &x.value {
        Meta::Scalar(expr) => seq![Part::Expr(expr)],
        Meta::Array(array) => meta_parts(array),
        Meta::Object(fields) => field_parts(&fields.value.0),
        Meta::Variant { fields, .. } => field_parts(&fields.value.0),
    }
}

/// The parts of a value in a section of data.
pub fn walk_meta<'a>(x: &'a Sp<Meta>) -> (r: Vec<Part<'a>>)
    ensures
        r@ == walk_meta_spec(x),
{
    let mut out: Vec<Part<'a>> = Vec::new();
    match &x.value {
        Meta::Scalar(expr) => out.push(Part::Expr(expr)),
        Meta::Array(array) => push_meta(&mut out, array),
        Meta::Object(fields) => push_field(&mut out, &fields.value.0),
        Meta::Variant { fields, .. } => push_field(&mut out, &fields.value.0),
    }
    assert(out@ =~= walk_meta_spec(x));
    out
}

/// The parts of a block.
pub fn walk_block<'a>(x: &'a Block) -> (r: Vec<Part<'a>>)
    ensures
        r@ == stmt_parts(&x.0),
{
    let mut out: Vec<Part<'a>> = Vec::new();
    push_stmt(&mut out, &x.0);
    assert(out@ =~= stmt_parts(&x.0));
    out
}

/// The parts of a statement behind its id.
pub open spec fn kind_parts<'a>(kind: &'a StmtKind) -> Seq<Part<'a>> {
    match kind {
        StmtKind::Item(item) => seq![Part::Item(&**item)],
        StmtKind::Jump(jump) => seq![Part::Jump(jump)],
        StmtKind::Return { value, .. } => match value {
            Some(value) => seq![Part::Expr(value)],
            None => seq![],
        },
        StmtKind::Loop { block, loop_id, .. } => loop_parts(loop_id, block),
        StmtKind::CondJump { cond, jump, .. } => seq![Part::Cond(cond), Part::Jump(jump)],
        StmtKind::CondChain(chain) => cond_block_parts(
            &chain.cond_blocks,
            chain.cond_blocks@.len(),
        ) + (match &chain.else_block {
            Some(block) => seq![Part::Block(block)],
            None => seq![],
        }),
        StmtKind::While { do_keyword, loop_id, cond, block, .. } => if do_keyword is Some {
            seq![Part::Cond(cond)] + loop_parts(loop_id, block)
        } else {
            loop_parts(loop_id, block) + seq![Part::Cond(cond)]
        },
        StmtKind::Times { clobber, count, block, loop_id, .. } => (match clobber {
            Some(clobber) => seq![Part::Var(clobber)],
            None => seq![],
        }) + seq![Part::Expr(count)] + loop_parts(loop_id, block),
        StmtKind::Expr(e) => seq![Part::Expr(e)],
        StmtKind::Block(block) => seq![Part::Block(block)],
        StmtKind::Assignment { var, value, .. } => seq![Part::Var(var), Part::Expr(value)],
        StmtKind::Declaration { vars, .. } => decl_parts(vars, vars@.len()),
        StmtKind::CallSub { args, .. } => expr_parts(args),
        StmtKind::Label(_) => seq![],
        StmtKind::InterruptLabel(_) => seq![],
        StmtKind::AbsTimeLabel(_) => seq![],
        StmtKind::RelTimeLabel { .. } => seq![],
        StmtKind::ScopeEnd(_) => seq![],
        StmtKind::NoInstruction => seq![],
    }
}

/// The parts of a statement.
pub fn walk_stmt<'a>(x: &'a Sp<Stmt>) -> (r: Vec<Part<'a>>)
    ensures
        r@ == seq![Part::NodeId(&x.value.node_id)] + kind_parts(&x.value.kind),
{
    let mut out: Vec<Part<'a>> = Vec::new();
    out.push(Part::NodeId(&x.value.node_id));
    match &x.value.kind {
        StmtKind::Item(item) => out.push(Part::Item(&**item)),
        StmtKind::Jump(jump) => out.push(Part::Jump(jump)),
        StmtKind::Return { value, .. } => {
            if let Some(value) = value {
                out.push(Part::Expr(value));
            }
        },
        StmtKind::Loop { block, loop_id, .. } => push_loop(&mut out, loop_id, block),
        StmtKind::CondJump { cond, jump, .. } => {
            out.push(Part::Cond(cond));
            out.push(Part::Jump(jump));
        },
        StmtKind::CondChain(chain) => {
            push_cond_block(&mut out, &chain.cond_blocks);
            if let Some(block) = &chain.else_block {
                out.push(Part::Block(block));
            }
        },
        StmtKind::While { do_keyword, loop_id, cond, block, .. } => {
            if do_keyword.is_some() {
                out.push(Part::Cond(cond));
                push_loop(&mut out, loop_id, block);
            } else {
                push_loop(&mut out, loop_id, block);
                out.push(Part::Cond(cond));
            }
        },
        StmtKind::Times { clobber, count, block, loop_id, .. } => {
            if let Some(clobber) = clobber {
                out.push(Part::Var(clobber));
            }
            out.push(Part::Expr(count));
            push_loop(&mut out, loop_id, block);
        },
        StmtKind::Expr(e) => out.push(Part::Expr(e)),
        StmtKind::Block(block) => out.push(Part::Block(block)),
        StmtKind::Assignment { var, value, .. } => {
            out.push(Part::Var(var));
            out.push(Part::Expr(value));
        },
        StmtKind::Declaration { vars, .. } => push_decl(&mut out, vars),
        StmtKind::CallSub { args, .. } => push_expr(&mut out, args),
        StmtKind::Label(_) => {},
        StmtKind::InterruptLabel(_) => {},
        StmtKind::AbsTimeLabel(_) => {},
        StmtKind::RelTimeLabel { .. } => {},
        StmtKind::ScopeEnd(_) => {},
        StmtKind::NoInstruction => {},
    }
    assert(out@ =~= seq![Part::NodeId(&x.value.node_id)] + kind_parts(&x.value.kind));
    out
}

pub open spec fn walk_expr_spec<'a>(e: &'a Sp<Expr>) -> Seq<Part<'a>> {
    match &e.value {
        Expr::Ternary { cond, left, right, .. } => seq![
            Part::Expr(&**cond),
            Part::Expr(&**left),
            Part::Expr(&**right),
        ],
        Expr::BinOp(a, _, b) => seq![Part::Expr(&**a), Part::Expr(&**b)],
        Expr::DiffSwitch(cases) => case_parts(cases, cases@.len()),
        Expr::Call(call) => seq![Part::CallableName(&call.name)] + pseudo_parts(&call.pseudos)
            + expr_parts(&call.args),
        Expr::UnOp(_, x) => seq![Part::Expr(&**x)],
        Expr::XcrementOp { var, .. } => seq![Part::Var(var)],
        Expr::LitInt { .. } => seq![],
        Expr::LitFloat { .. } => seq![],
        Expr::LitString(_) => seq![],
        Expr::LabelProperty { .. } => seq![],
        Expr::EnumConst { ident, .. } => seq![Part::ResIdent(&ident.value)],
        Expr::Var(var) => seq![Part::Var(var)],
    }
}

/// The parts of an expression.
pub fn walk_expr<'a>(e: &'a Sp<Expr>) -> (r: Vec<Part<'a>>)
    ensures
        r@ == walk_expr_spec(e),
{
    let mut out: Vec<Part<'a>> = Vec::new();
    match &e.value {
        Expr::Ternary { cond, left, right, .. } => {
            out.push(Part::Expr(&**cond));
            out.push(Part::Expr(&**left));
            out.push(Part::Expr(&**right));
        },
        Expr::BinOp(a, _, b) => {
            out.push(Part::Expr(&**a));
            out.push(Part::Expr(&**b));
        },
        Expr::DiffSwitch(cases) => push_case(&mut out, cases),
        Expr::Call(call) => {
            out.push(Part::CallableName(&call.name));
            push_pseudo(&mut out, &call.pseudos);
            push_expr(&mut out, &call.args);
        },
        Expr::UnOp(_, x) => out.push(Part::Expr(&**x)),
        Expr::XcrementOp { var, .. } => out.push(Part::Var(var)),
        Expr::LitInt { .. } => {},
        Expr::LitFloat { .. } => {},
        Expr::LitString(_) => {},
        Expr::LabelProperty { .. } => {},
        Expr::EnumConst { ident, .. } => out.push(Part::ResIdent(&ident.value)),
        Expr::Var(var) => out.push(Part::Var(var)),
    }
    assert(out@ =~= walk_expr_spec(e));
    out
}

/// The parts of the name of something that is called.
pub fn walk_callable_name<'a>(x: &'a Sp<CallableName>) -> (r: Vec<Part<'a>>)
    ensures
        r@ == match &x.value {
            CallableName::Normal { ident, .. } => seq![Part::ResIdent(ident)],
            CallableName::Ins { .. } => seq![],
        },
{
    let mut out: Vec<Part<'a>> = Vec::new();
    match &x.value {
        CallableName::Normal { ident, .. } => out.push(Part::ResIdent(ident)),
        CallableName::Ins { .. } => {},
    }
    out
}

/// The parts of a variable.
pub fn walk_var<'a>(x: &'a Sp<Var>) -> (r: Vec<Part<'a>>)
    ensures
        r@ == match &x.value.name {
            VarName::Normal { ident, .. } => seq![Part::ResIdent(ident)],
            VarName::Reg { .. } => seq![],
        },
{
    let mut out: Vec<Part<'a>> = Vec::new();
    match &x.value.name {
        VarName::Normal { ident, .. } => out.push(Part::ResIdent(ident)),
        VarName::Reg { .. } => {},
    }
    out
}

} // verus!
