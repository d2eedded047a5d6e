//! Loop compilation.
//!
//! This transforms `loop { ... }` syntax in STD to use a label and `goto`.
//!
//! It currently does this directly to the AST.  Which doesn't seem like a
//! viable strategy long-term, but we'll see where things go...

use crate::error::{CompileError, Diagnostic, ErrorV};
use crate::ident::GensymContext;
use crate::pos::{sp, sp_null, Sp, Span, Spanned};
use crate::script::{
    body_view, cond_view, goto_view, item_view, items_view, label_view, lemma_stmts_view, stmt_view,
    stmts_view, Block, BodyV, Cond, CondKeyword, CondV, GotoV, Item, ItemV, Script, ScriptV, Stmt,
    StmtBody, StmtGoto, StmtLabel, StmtV,
};
use crate::text::decimal_spec;
use vstd::prelude::*;

verus! {

/// The number of the next label, and what went wrong so far.
#[verifier::ext_equal]
pub ghost struct LoopSt {
    pub next: u64,
    pub errors: Seq<ErrorV>,
}

/// The label of a loop.
pub open spec fn loop_label(n: u64) -> Seq<char> {
    "@loop#"@ + decimal_spec(n as nat)
}

/// The body of a loop that becomes a label and a jump, with the condition of the jump.
pub open spec fn loop_parts(body: BodyV) -> Option<(Seq<Sp<StmtV>>, Option<Sp<CondV>>)> {
    match body {
        BodyV::Loop { block } => Some((block, None)),
        BodyV::While { is_do_while: true, cond, block } => Some((block, Some(cond))),
        _ => None,
    }
}

pub open spec fn make_jump_spec(cond: Option<Sp<CondV>>, jump: GotoV) -> BodyV {
    match cond {
        None => BodyV::Jump(jump),
        Some(cond) => BodyV::CondJump { keyword: sp_null(CondKeyword::If), cond, jump },
    }
}

/// Where a loop starts: at its first statement, or where it stands itself if it has none.
pub open spec fn loop_start(stmt: Sp<StmtV>, block: Seq<Sp<StmtV>>) -> (Span, i32) {
    if block.len() == 0 {
        (stmt.span.start_span_spec(), stmt.value.time)
    } else {
        (block[0].span.start_span_spec(), block[0].value.time)
    }
}

/// Where a loop ends: at its last statement, or where it stands itself if it has none.
pub open spec fn loop_end(stmt: Sp<StmtV>, block: Seq<Sp<StmtV>>) -> (Span, i32) {
    if block.len() == 0 {
        (stmt.span.end_span_spec(), stmt.value.time)
    } else {
        (block.last().span.end_span_spec(), block.last().value.time)
    }
}

/// A loop as a label, its statements, and a jump back.  Other statements stay as they are.
pub open spec fn unroll(st: LoopSt, stmt: Sp<StmtV>) -> (Seq<Sp<StmtV>>, LoopSt) {
    match loop_parts(stmt.value.body.value) {
        None => (seq![stmt], st),
        Some((block, cond)) => if st.next == u64::MAX {
            (
                seq![stmt],
                LoopSt { errors: st.errors.push(Diagnostic::ScriptTooLarge), ..st },
            )
        } else {
            let label = loop_label(st.next);
            let (start, start_time) = loop_start(stmt, block);
            let (end, end_time) = loop_end(stmt, block);
            let first = Spanned {
                span: start,
                value: StmtV {
                    time: start_time,
                    labels: stmt.value.labels,
                    body: Spanned {
                        span: start,
                        value: BodyV::Label(Spanned { span: start, value: label }),
                    },
                },
            };
            let last = Spanned {
                span: end,
                value: StmtV {
                    time: end_time,
                    labels: seq![],
                    body: Spanned {
                        span: end,
                        value: make_jump_spec(
                            cond,
                            GotoV {
                                destination: Spanned { span: end, value: label },
                                time: None,
                            },
                        ),
                    },
                },
            };
            (
                seq![first] + block + seq![last],
                LoopSt { next: (st.next + 1) as u64, ..st },
            )
        },
    }
}

/// The first `n` statements of a list with the loops among them unrolled.
pub open spec fn unroll_all(st: LoopSt, stmts: Seq<Sp<StmtV>>, n: nat) -> (
    Seq<Sp<StmtV>>,
    LoopSt,
)
    decreases n,
{
    if n == 0 {
        (seq![], st)
    } else {
        let (out, st) = unroll_all(st, stmts, (n - 1) as nat);
        let (more, st) = unroll(st, stmts[n - 1]);
        (out + more, st)
    }
}

/// A block without loops.  The blocks inside its statements come first.
pub open spec fn loop_block(st: LoopSt, block: Seq<Sp<StmtV>>) -> (Seq<Sp<StmtV>>, LoopSt)
    decreases block, block.len() + 1,
{
    let (inner, st) = loop_stmts(st, block, block.len());
    unroll_all(st, inner, inner.len())
}

/// The first `n` statements of a block, each with the blocks inside it transformed.
pub open spec fn loop_stmts(st: LoopSt, block: Seq<Sp<StmtV>>, n: nat) -> (Seq<Sp<StmtV>>, LoopSt)
    decreases block, n,
{
    if n == 0 || n > block.len() {
        (seq![], st)
    } else {
        let (out, st) = loop_stmts(st, block, (n - 1) as nat);
        let stmt = block[n - 1];
        let (body, st) = loop_body(st, stmt.value.body);
        (out.push(Spanned { span: stmt.span, value: StmtV { body, ..stmt.value } }), st)
    }
}

pub open spec fn loop_body(st: LoopSt, body: Sp<BodyV>) -> (Sp<BodyV>, LoopSt)
    decreases body, 0nat,
{
    match body.value {
        BodyV::Loop { block } => {
            let (block, st) = loop_block(st, block);
            (Spanned { span: body.span, value: BodyV::Loop { block } }, st)
        },
        BodyV::While { is_do_while, cond, block } => {
            let (block, st) = loop_block(st, block);
            (Spanned { span: body.span, value: BodyV::While { is_do_while, cond, block } }, st)
        },
        _ => (body, st),
    }
}

pub open spec fn loop_item(st: LoopSt, item: Sp<ItemV>) -> (Sp<ItemV>, LoopSt) {
    let (value, st) = match item.value {
        ItemV::AnmScript { number, name, code } => {
            let (code, st) = loop_block(st, code);
            (ItemV::AnmScript { number, name, code }, st)
        },
        ItemV::Func { name, code: Some(code) } => {
            let (code, st) = loop_block(st, code);
            (ItemV::Func { name, code: Some(code) }, st)
        },
        value => (value, st),
    };
    (Spanned { span: item.span, value }, st)
}

/// The first `n` items of a script.
pub open spec fn loop_items(st: LoopSt, items: Seq<Sp<ItemV>>, n: nat) -> (Seq<Sp<ItemV>>, LoopSt)
    decreases n,
{
    if n == 0 {
        (seq![], st)
    } else {
        let (out, st) = loop_items(st, items, (n - 1) as nat);
        let (item, st) = loop_item(st, items[n - 1]);
        (out.push(item), st)
    }
}

pub open spec fn loop_script(st: LoopSt, script: ScriptV) -> (ScriptV, LoopSt) {
    let (items, st) = loop_items(st, script.items, script.items.len());
    (ScriptV { items, ..script }, st)
}

// =============================================================================

/// Visitor for loop compilation.
///
/// See the [the module-level documentation][self] for more details.
pub struct Visitor {
    pub gensym_ctx: GensymContext,
    pub errors: CompileError,
}

enum JmpKind {
    Unconditional,
    Conditional(Sp<Cond>),
}

impl JmpKind {
    spec fn cond(self) -> Option<Sp<CondV>> {
        match self {
            JmpKind::Unconditional => None,
            JmpKind::Conditional(cond) => Some(cond_view(cond)),
        }
    }

    /// Take a loop apart; give back a statement that is none.
    fn from_loop(body: Sp<StmtBody>) -> (r: Result<(Block, JmpKind), Sp<StmtBody>>)
        ensures
            match loop_parts(body_view(body).value) {
                Some((block, cond)) => r matches Ok((b, k)) && b@ == block && k.cond() == cond,
                None => r matches Err(b) && b == body,
            },
    {
        let span = body.span;
        match body.value {
            StmtBody::Loop { block } => Ok((block, JmpKind::Unconditional)),
            StmtBody::While { is_do_while, cond, block } => if is_do_while {
                Ok((block, JmpKind::Conditional(cond)))
            } else {
                Err(Spanned { span, value: StmtBody::While { is_do_while, cond, block } })
            },
            value => Err(Spanned { span, value }),
        }
    }

    fn make_jump(self, jump: StmtGoto) -> (r: StmtBody)
        ensures
            forall|span: Span|
                (#[trigger] body_view(Spanned { span, value: r })).value == make_jump_spec(
                    self.cond(),
                    goto_view(jump),
                ),
    {
        match self {
            JmpKind::Unconditional => StmtBody::Jump(jump),
            JmpKind::Conditional(cond) => StmtBody::CondJump {
                keyword: sp(CondKeyword::If),
                cond,
                jump,
            },
        }
    }
}

impl Visitor {
    pub open spec fn st(self) -> LoopSt {
        LoopSt { next: self.gensym_ctx.next, errors: self.errors@ }
    }

    /// A visitor that takes its labels from a source of identifiers.
    pub fn new(gensym_ctx: GensymContext) -> (r: Self)
        ensures
            r.st() == (LoopSt { next: gensym_ctx.next, errors: seq![] }),
    {
        Visitor { gensym_ctx, errors: CompileError::new_empty() }
    }

    /// Give the source of identifiers back.
    pub fn finish(self) -> (r: Result<GensymContext, CompileError>)
        ensures
            self.errors@.len() == 0 ==> r == Ok::<GensymContext, CompileError>(self.gensym_ctx),
            self.errors@.len() != 0 ==> r == Err::<GensymContext, CompileError>(self.errors),
    {
        self.errors.into_result(self.gensym_ctx)
    }

    /// Add a statement to others, unrolled if it is a loop.
    fn push_unrolled(&mut self, out: &mut Vec<Sp<Stmt>>, stmt: Sp<Stmt>)
        ensures
            ({
                let (more, st) = unroll(old(self).st(), stmt_view(stmt));
                &&& final(self).st() == st
                &&& stmts_view(final(out)@, final(out)@.len()) == stmts_view(
                    old(out)@,
                    old(out)@.len(),
                ) + more
            }),
    {
        let ghost sv = stmt_view(stmt);
        let ghost before = stmts_view(out@, out@.len());
        let span = stmt.span;
        let Stmt { time, labels, body } = stmt.value;
        let body_span = body.span;
        let (block, jmp_kind) = match JmpKind::from_loop(body) {
            Ok(x) => x,
            Err(body) => {
                let same = Spanned { span, value: Stmt { time, labels, body } };
                proof {
                    lemma_push_view(out@, same);
                    assert(before.push(sv) =~= before + seq![sv]);
                }
                out.push(same);
                return ;
            },
        };
        if self.gensym_ctx.next == u64::MAX {
            // put the loop together again
            let value = match jmp_kind {
                JmpKind::Unconditional => StmtBody::Loop { block },
                JmpKind::Conditional(cond) => StmtBody::While { is_do_while: true, cond, block },
            };
            let same = Spanned {
                span,
                value: Stmt { time, labels, body: Spanned { span: body_span, value } },
            };
            proof {
                assert(stmt_view(same) == sv);
                lemma_push_view(out@, same);
                assert(before.push(sv) =~= before + seq![sv]);
            }
            out.push(same);
            self.errors.push(Diagnostic::ScriptTooLarge);
            return ;
        }
        let ghost bv = block@;
        let mut inner = block.0;
        proof {
            lemma_stmts_view(inner@, inner@.len());
        }
        let n: usize = inner.len();
        let (start_span, start_time, end_span, end_time) = if n == 0 {
            (span.start_span(), time, span.end_span(), time)
        } else {
            assert(bv[0] == stmt_view(inner@[0]));
            assert(bv[n - 1] == stmt_view(inner@[n - 1]));
            (
                inner[0].span.start_span(),
                inner[0].value.time,
                inner[n - 1].span.end_span(),
                inner[n - 1].value.time,
            )
        };
        let label_ident = self.gensym_ctx.gensym("@loop#");
        let start_stmt = Spanned {
            span: start_span,
            value: Stmt {
                time: start_time,
                labels,
                body: Spanned {
                    span: start_span,
                    value: StmtBody::Label(
                        Spanned { span: start_span, value: label_ident.clone() },
                    ),
                },
            },
        };
        let goto = StmtGoto {
            destination: Spanned { span: end_span, value: label_ident },
            time: None,
        };
        let no_labels: Vec<Sp<StmtLabel>> = Vec::new();
        assert(no_labels@.map_values(|l: Sp<StmtLabel>| label_view(l)) =~= seq![]);
        let end_stmt = Spanned {
            span: end_span,
            value: Stmt {
                time: end_time,
                labels: no_labels,
                body: Spanned { span: end_span, value: jmp_kind.make_jump(goto) },
            },
        };
        let ghost first = stmt_view(start_stmt);
        let ghost last = stmt_view(end_stmt);
        proof {
            let (more, st) = unroll(old(self).st(), sv);
            assert(body_view(end_stmt.value.body).value == make_jump_spec(
                jmp_kind.cond(),
                goto_view(goto),
            ));
            assert(first == more[0]);
            assert(last == more.last());
            lemma_push_view(out@, start_stmt);
        }
        out.push(start_stmt);
        proof {
            lemma_append_view(out@, inner@);
        }
        out.append(&mut inner);
        proof {
            lemma_push_view(out@, end_stmt);
        }
        out.push(end_stmt);
        assert(before.push(first) + bv =~= before + (seq![first] + bv));
        assert((before + (seq![first] + bv)).push(last) =~= before + (seq![first] + bv + seq![
            last,
        ]));
    }

    pub fn visit_block(&mut self, block: &mut Block)
        ensures
            (final(block)@, final(self).st()) == loop_block(old(self).st(), old(block)@),
        decreases *old(block),
    {
        // traverse depth-first
        let n: usize = block.0.len();
        let ghost all = block.0@;
        let ghost views = stmts_view(all, all.len());
        let mut i: usize = 0;
        proof {
            lemma_stmts_view(all, all.len());
        }
        while i < n
            invariant
                i <= n,
                n == block.0@.len(),
                n == all.len(),
                all == old(block).0@,
                views.len() == n,
                forall|j: int| 0 <= j < n ==> #[trigger] views[j] == stmt_view(all[j]),
                forall|j: int| i <= j < n ==> block.0@[j] == all[j],
                stmts_view(block.0@, i as nat) == loop_stmts(old(self).st(), views, i as nat).0,
                self.st() == loop_stmts(old(self).st(), views, i as nat).1,
            decreases n - i,
        {
            assert(decreases_to!(old(block).0 => all[i as int]));
            assert(views[i as int] == stmt_view(all[i as int]));
            let ghost before = block.0@;
            self.visit_stmt_body(&mut block.0[i].value.body);
            proof {
                lemma_stmts_view(before, i as nat);
                lemma_stmts_view(block.0@, i as nat);
                assert(stmts_view(before, i as nat) =~= stmts_view(block.0@, i as nat));
                assert(block.0@[i as int].span == all[i as int].span);
                assert(block.0@[i as int].value.time == all[i as int].value.time);
                assert(block.0@[i as int].value.labels == all[i as int].value.labels);
                assert(stmt_view(block.0@[i as int]).value.labels == views[i as int].value.labels);
            }
            i = i + 1;
        }

        let ghost inner = block@;
        let ghost st = self.st();
        let mut rest: Vec<Sp<Stmt>> = Vec::new();
        core::mem::swap(&mut block.0, &mut rest);
        let ghost full = rest@;
        proof {
            lemma_stmts_view(full, full.len());
        }
        // take the statements from the front
        let mut rev: Vec<Sp<Stmt>> = Vec::new();
        assert(full.reverse().take(0) =~= seq![]);
        while rest.len() > 0
            invariant
                rest@.len() + rev@.len() == full.len(),
                rest@ == full.take(rest@.len() as int),
                rev@ == full.reverse().take(rev@.len() as int),
            decreases rest@.len(),
        {
            let ghost k = rest@.len();
            let ghost r = rev@;
            match rest.pop() {
                Some(stmt) => {
                    rev.push(stmt);
                    assert(stmt == full[k - 1]);
                    assert(full.reverse()[r.len() as int] == full[k - 1]);
                    assert(rev@ =~= full.reverse().take(rev@.len() as int));
                    assert(rest@ =~= full.take(k - 1));
                },
                None => {},
            }
        }
        assert(rev@ =~= full.reverse());
        let mut new_stmts: Vec<Sp<Stmt>> = Vec::new();
        let ghost total = full.len();
        while rev.len() > 0
            invariant
                rev@.len() <= total,
                total == full.len(),
                inner == stmts_view(full, full.len()),
                inner.len() == total,
                forall|j: int| 0 <= j < total ==> #[trigger] inner[j] == stmt_view(full[j]),
                rev@ == full.reverse().take(rev@.len() as int),
                (stmts_view(new_stmts@, new_stmts@.len()), self.st()) == unroll_all(
                    st,
                    inner,
                    (total - rev@.len()) as nat,
                ),
            decreases rev@.len(),
        {
            let ghost k = rev@.len();
            match rev.pop() {
                Some(stmt) => {
                    assert(stmt == full.reverse()[k - 1]);
                    assert(stmt == full[total - k]);
                    assert(inner[total - k] == stmt_view(stmt));
                    assert(rev@ =~= full.reverse().take(k - 1));
                    self.push_unrolled(&mut new_stmts, stmt);
                },
                None => {},
            }
        }
        block.0 = new_stmts;
    }

    fn visit_stmt_body(&mut self, body: &mut Sp<StmtBody>)
        ensures
            (body_view(*final(body)), final(self).st()) == loop_body(
                old(self).st(),
                body_view(*old(body)),
            ),
        decreases *old(body),
    {
        match &mut body.value {
            StmtBody::Loop { block } => {
                self.visit_block(block);
            },
            StmtBody::While { block, .. } => {
                self.visit_block(block);
            },
            _ => {},
        }
    }

    fn visit_item(&mut self, item: &mut Sp<Item>)
        ensures
            (item_view(*final(item)), final(self).st()) == loop_item(
                old(self).st(),
                item_view(*old(item)),
            ),
    {
        match &mut item.value {
            Item::AnmScript { code, .. } => {
                self.visit_block(code);
            },
            Item::Func { code, .. } => match code {
                Some(block) => {
                    self.visit_block(block);
                },
                None => {},
            },
            _ => {},
        }
    }

    pub fn visit_script(&mut self, script: &mut Script)
        ensures
            (final(script)@, final(self).st()) == loop_script(old(self).st(), old(script)@),
    {
        let n: usize = script.items.len();
        let ghost all = script.items@;
        let ghost views = script@.items;
        let mut i: usize = 0;
        assert(items_view(script.items@).take(0) =~= seq![]);
        while i < n
            invariant
                i <= n,
                n == script.items@.len(),
                n == all.len(),
                all == old(script).items@,
                script.mapfiles == old(script).mapfiles,
                views == items_view(all),
                forall|j: int| i <= j < n ==> script.items@[j] == all[j],
                items_view(script.items@).take(i as int) == loop_items(
                    old(self).st(),
                    views,
                    i as nat,
                ).0,
                self.st() == loop_items(old(self).st(), views, i as nat).1,
            decreases n - i,
        {
            assert(views[i as int] == item_view(all[i as int]));
            let ghost before = script.items@;
            self.visit_item(&mut script.items[i]);
            proof {
                assert(items_view(script.items@)[i as int] == item_view(script.items@[i as int]));
                assert(items_view(script.items@).take(i + 1) =~= items_view(before).take(
                    i as int,
                ).push(item_view(script.items@[i as int])));
            }
            i = i + 1;
        }
        assert(items_view(script.items@).take(n as int) =~= items_view(script.items@));
    }
}

proof fn lemma_push_view(s: Seq<Sp<Stmt>>, x: Sp<Stmt>)
    ensures
        stmts_view(s.push(x), s.push(x).len()) == stmts_view(s, s.len()).push(stmt_view(x)),
{
    lemma_stmts_view(s, s.len());
    lemma_stmts_view(s.push(x), s.push(x).len());
    assert(stmts_view(s.push(x), s.push(x).len()) =~= stmts_view(s, s.len()).push(stmt_view(x)));
}

proof fn lemma_append_view(s: Seq<Sp<Stmt>>, t: Seq<Sp<Stmt>>)
    ensures
        stmts_view(s + t, (s + t).len()) == stmts_view(s, s.len()) + stmts_view(t, t.len()),
{
    lemma_stmts_view(s, s.len());
    lemma_stmts_view(t, t.len());
    lemma_stmts_view(s + t, (s + t).len());
    assert(stmts_view(s + t, (s + t).len()) =~= stmts_view(s, s.len()) + stmts_view(t, t.len()));
}

// =============================================================================

/// Whether neither a statement nor the blocks inside it hold a loop that can be unrolled.
pub open spec fn loopless_body(body: BodyV) -> bool
    decreases body, 0nat,
{
    match body {
        BodyV::Loop { .. } => false,
        BodyV::While { is_do_while, block, .. } => !is_do_while && loopless(block, block.len()),
        _ => true,
    }
}

/// Whether the first `n` statements of a block hold no loop that can be unrolled.
pub open spec fn loopless(block: Seq<Sp<StmtV>>, n: nat) -> bool
    decreases block, n,
{
    if n == 0 || n > block.len() {
        true
    } else {
        loopless(block, (n - 1) as nat) && loopless_body(block[n - 1].value.body.value)
    }
}

proof fn lemma_loopless(block: Seq<Sp<StmtV>>, n: nat)
    requires
        n <= block.len(),
    ensures
        loopless(block, n) <==> forall|i: int|
            0 <= i < n ==> loopless_body((#[trigger] block[i]).value.body.value),
    decreases n,
{
    if n > 0 {
        lemma_loopless(block, (n - 1) as nat);
    }
}

/// Whether a block that is inside a statement is loopless, if it is a loop's.
spec fn inside_loopless(body: BodyV) -> bool {
    match body {
        BodyV::Loop { block } => loopless(block, block.len()),
        BodyV::While { block, .. } => loopless(block, block.len()),
        _ => true,
    }
}

proof fn lemma_unroll_all(st: LoopSt, stmts: Seq<Sp<StmtV>>, n: nat)
    requires
        n <= stmts.len(),
        forall|i: int|
            0 <= i < stmts.len() ==> inside_loopless((#[trigger] stmts[i]).value.body.value),
    ensures
        st.errors.len() <= unroll_all(st, stmts, n).1.errors.len(),
        st.errors.len() == unroll_all(st, stmts, n).1.errors.len() ==> forall|i: int|
            0 <= i < unroll_all(st, stmts, n).0.len() ==> loopless_body(
                (#[trigger] unroll_all(st, stmts, n).0[i]).value.body.value,
            ),
    decreases n,
{
    if n > 0 {
        lemma_unroll_all(st, stmts, (n - 1) as nat);
        let (out, st1) = unroll_all(st, stmts, (n - 1) as nat);
        let stmt = stmts[n - 1];
        let (more, st2) = unroll(st1, stmt);
        assert(inside_loopless(stmt.value.body.value));
        match loop_parts(stmt.value.body.value) {
            Some((block, cond)) => {
                lemma_loopless(block, block.len());
            },
            None => {},
        }
        if st.errors.len() == st2.errors.len() {
            assert forall|i: int| 0 <= i < more.len() implies loopless_body(
                (#[trigger] more[i]).value.body.value,
            ) by {
                match loop_parts(stmt.value.body.value) {
                    Some((block, cond)) => {
                        if 0 < i < more.len() - 1 {
                            assert(more[i] == block[i - 1]);
                        }
                    },
                    None => {},
                }
            }
            let all = unroll_all(st, stmts, n).0;
            assert(all == out + more);
            assert forall|i: int| 0 <= i < all.len() implies loopless_body(
                (#[trigger] all[i]).value.body.value,
            ) by {
                if i < out.len() {
                    assert(all[i] == out[i]);
                } else {
                    assert(all[i] == more[i - out.len()]);
                }
            }
        }
    }
}

proof fn lemma_loop_stmts(st: LoopSt, block: Seq<Sp<StmtV>>, n: nat)
    requires
        n <= block.len(),
    ensures
        st.errors.len() <= loop_stmts(st, block, n).1.errors.len(),
        st.errors.len() == loop_stmts(st, block, n).1.errors.len() ==> forall|i: int|
            0 <= i < loop_stmts(st, block, n).0.len() ==> inside_loopless(
                (#[trigger] loop_stmts(st, block, n).0[i]).value.body.value,
            ),
    decreases block, n,
{
    if n > 0 {
        lemma_loop_stmts(st, block, (n - 1) as nat);
        let (out, st1) = loop_stmts(st, block, (n - 1) as nat);
        match block[n - 1].value.body.value {
            BodyV::Loop { block: inner } => {
                law_no_loops_left(st1, inner);
            },
            BodyV::While { block: inner, .. } => {
                law_no_loops_left(st1, inner);
            },
            _ => {},
        }
        let (body, st2) = loop_body(st1, block[n - 1].value.body);
        assert(loop_stmts(st, block, n).1 == st2);
        let all = loop_stmts(st, block, n).0;
        assert(all.drop_last() =~= out);
        assert(all.last().value.body == body);
        if st.errors.len() == loop_stmts(st, block, n).1.errors.len() {
            assert forall|i: int| 0 <= i < all.len() implies inside_loopless(
                (#[trigger] all[i]).value.body.value,
            ) by {
                if i < out.len() {
                    assert(all[i] == out[i]);
                }
            }
        }
    }
}

/// Where nothing went wrong, no `loop` and no `do`-`while` is left in a block, at any depth.
pub proof fn law_no_loops_left(st: LoopSt, block: Seq<Sp<StmtV>>)
    ensures
        st.errors.len() <= loop_block(st, block).1.errors.len(),
        st.errors.len() == loop_block(st, block).1.errors.len() ==> loopless(
            loop_block(st, block).0,
            loop_block(st, block).0.len(),
        ),
    decreases block, block.len() + 1,
{
    lemma_loop_stmts(st, block, block.len());
    let (inner, st1) = loop_stmts(st, block, block.len());
    let (out, st2) = unroll_all(st1, inner, inner.len());
    if st.errors.len() == st1.errors.len() {
        lemma_unroll_all(st1, inner, inner.len());
        lemma_loopless(out, out.len());
    } else {
        lemma_unroll_errors(st1, inner, inner.len());
    }
}

proof fn lemma_unroll_errors(st: LoopSt, stmts: Seq<Sp<StmtV>>, n: nat)
    ensures
        st.errors.len() <= unroll_all(st, stmts, n).1.errors.len(),
    decreases n,
{
    if n > 0 {
        lemma_unroll_errors(st, stmts, (n - 1) as nat);
    }
}

// =============================================================================

/// Whether a statement is a label of a name, and nothing else.
pub open spec fn is_label(stmt: Sp<StmtV>, name: Seq<char>) -> bool {
    stmt.value.body.value matches BodyV::Label(l) && l.value == name
}

/// Whether a statement goes to a label: always if there is no condition, and else if it holds.
pub open spec fn goes_back(stmt: Sp<StmtV>, cond: Option<Sp<CondV>>, name: Seq<char>) -> bool {
    let jump = match (stmt.value.body.value, cond) {
        (BodyV::Jump(jump), None) => Some(jump),
        (BodyV::CondJump { keyword, cond: c, jump }, Some(cond)) => if c == cond
            && keyword.value is If {
            Some(jump)
        } else {
            None
        },
        _ => None,
    };
    jump matches Some(j) && j.destination.value == name && j.time is None
}

/// Whether code is a loop that was taken apart: a label where the labels of the loop are, the
/// statements of the loop, and a jump back to the label.  The label is reached when the first
/// statement is, and the jump is made at the time of the last one.
pub open spec fn is_unrolled_loop(
    out: Seq<Sp<StmtV>>,
    stmt: Sp<StmtV>,
    inner: Seq<Sp<StmtV>>,
    cond: Option<Sp<CondV>>,
    number: u64,
) -> bool {
    let name = "@loop#"@ + decimal_spec(number as nat);
    let first = out[0];
    let last = out[out.len() - 1];
    &&& out.len() == inner.len() + 2
    &&& forall|i: int| 0 <= i < inner.len() ==> #[trigger] out[i + 1] == inner[i]
    &&& is_label(first, name)
    &&& goes_back(last, cond, name)
    &&& first.value.labels == stmt.value.labels
    &&& last.value.labels.len() == 0
    &&& inner.len() > 0 ==> {
        &&& first.value.time == inner[0].value.time
        &&& last.value.time == inner[inner.len() - 1].value.time
        &&& first.span.file_id == inner[0].span.file_id
        &&& first.span.start == inner[0].span.start
        &&& first.span.end == inner[0].span.start
        &&& last.span.file_id == inner[inner.len() - 1].span.file_id
        &&& last.span.start == inner[inner.len() - 1].span.end
        &&& last.span.end == inner[inner.len() - 1].span.end
    }
    &&& inner.len() == 0 ==> first.value.time == stmt.value.time && last.value.time
        == stmt.value.time
}

/// Whether code stands for the first `n` statements of a block, one after the other.
pub open spec fn stands_for(block: Seq<Sp<StmtV>>, n: nat, out: Seq<Sp<StmtV>>) -> bool
    decreases block, n,
{
    if n == 0 || n > block.len() {
        out.len() == 0
    } else {
        exists|k: int|
            0 <= k <= out.len() && stands_for(block, (n - 1) as nat, #[trigger] out.take(k))
                && stands_for_stmt(block[n - 1], out.skip(k))
    }
}

/// Whether code stands for a statement: a loop is taken apart, and the blocks inside other
/// statements have no loops either.
pub open spec fn stands_for_stmt(stmt: Sp<StmtV>, out: Seq<Sp<StmtV>>) -> bool
    decreases stmt, 0nat,
{
    match stmt.value.body.value {
        BodyV::Loop { block } => exists|inner: Seq<Sp<StmtV>>, number: u64|
            #[trigger] is_unrolled_loop(out, stmt, inner, None, number) && stands_for(
                block,
                block.len(),
                inner,
            ),
        BodyV::While { is_do_while: true, cond, block } => exists|
            inner: Seq<Sp<StmtV>>,
            number: u64,
        | #[trigger]
            is_unrolled_loop(out, stmt, inner, Some(cond), number) && stands_for(
                block,
                block.len(),
                inner,
            ),
        BodyV::While { is_do_while: false, cond, block } => {
            &&& out.len() == 1
            &&& out[0].span == stmt.span
            &&& out[0].value.time == stmt.value.time
            &&& out[0].value.labels == stmt.value.labels
            &&& out[0].value.body.span == stmt.value.body.span
            &&& out[0].value.body.value matches BodyV::While { is_do_while: d, cond: c, block: b }
            &&& !d
            &&& c == cond
            &&& stands_for(block, block.len(), b)
        },
        _ => out == seq![stmt],
    }
}

/// What is there of a statement before it is unrolled itself: the same statement, with blocks
/// inside it that stand for those that it had.
spec fn opened(stmt: Sp<StmtV>, now: Sp<StmtV>) -> bool {
    &&& now.span == stmt.span
    &&& now.value.time == stmt.value.time
    &&& now.value.labels == stmt.value.labels
    &&& now.value.body.span == stmt.value.body.span
    &&& match stmt.value.body.value {
        BodyV::Loop { block } => now.value.body.value matches BodyV::Loop { block: b }
            && stands_for(block, block.len(), b),
        BodyV::While { is_do_while, cond, block } => now.value.body.value matches BodyV::While {
            is_do_while: d,
            cond: c,
            block: b,
        } && d == is_do_while && c == cond && stands_for(block, block.len(), b),
        _ => now == stmt,
    }
}

/// A loop is unrolled to a label, its statements, and a jump back to the label.  No two loops get
/// one label, and other statements stay.
pub proof fn law_loop_is_label_and_jump(st: LoopSt, stmt: Sp<StmtV>)
    ensures
        ({
            let (out, after) = unroll(st, stmt);
            match stmt.value.body.value {
                BodyV::Loop { block } => st.next < u64::MAX ==> is_unrolled_loop(
                    out,
                    stmt,
                    block,
                    None,
                    st.next,
                ) && after.next > st.next && after.errors == st.errors,
                BodyV::While { is_do_while: true, cond, block } => st.next < u64::MAX
                    ==> is_unrolled_loop(out, stmt, block, Some(cond), st.next) && after.next
                    > st.next && after.errors == st.errors,
                _ => out == seq![stmt] && after == st,
            }
        }),
        unroll(st, stmt).1.errors.len() > st.errors.len() <==> st.next == u64::MAX
            && loop_parts(stmt.value.body.value) is Some,
{
    let (out, after) = unroll(st, stmt);
    if let Some((block, cond)) = loop_parts(stmt.value.body.value) {
        if st.next < u64::MAX {
            assert(is_unrolled_loop(out, stmt, block, cond, st.next));
        }
    }
}

proof fn lemma_opened_unrolls(st: LoopSt, stmt: Sp<StmtV>, now: Sp<StmtV>)
    requires
        opened(stmt, now),
        unroll(st, now).1.errors.len() == st.errors.len(),
    ensures
        stands_for_stmt(stmt, unroll(st, now).0),
{
    law_loop_is_label_and_jump(st, now);
    let out = unroll(st, now).0;
    match now.value.body.value {
        BodyV::Loop { block } => {
            assert(is_unrolled_loop(out, now, block, None, st.next));
            assert(is_unrolled_loop(out, stmt, block, None, st.next));
        },
        BodyV::While { is_do_while, cond, block } => {
            if is_do_while {
                assert(is_unrolled_loop(out, now, block, Some(cond), st.next));
                assert(is_unrolled_loop(out, stmt, block, Some(cond), st.next));
            }
        },
        _ => {},
    }
}

proof fn lemma_unroll_all_stands(
    st: LoopSt,
    block: Seq<Sp<StmtV>>,
    inner: Seq<Sp<StmtV>>,
    n: nat,
)
    requires
        n <= block.len(),
        inner.len() == block.len(),
        forall|i: int| 0 <= i < block.len() ==> opened(block[i], #[trigger] inner[i]),
        unroll_all(st, inner, n).1.errors.len() == st.errors.len(),
    ensures
        stands_for(block, n, unroll_all(st, inner, n).0),
    decreases n,
{
    if n > 0 {
        let (before, st1) = unroll_all(st, inner, (n - 1) as nat);
        let (more, st2) = unroll(st1, inner[n - 1]);
        lemma_unroll_errors(st, inner, (n - 1) as nat);
        assert(st1.errors.len() <= st2.errors.len());
        lemma_unroll_all_stands(st, block, inner, (n - 1) as nat);
        assert(opened(block[n - 1], inner[n - 1]));
        lemma_opened_unrolls(st1, block[n - 1], inner[n - 1]);
        let out = before + more;
        let k = before.len() as int;
        assert(out.take(k) =~= before);
        assert(out.skip(k) =~= more);
        assert(stands_for(block, (n - 1) as nat, out.take(k)));
    }
}

proof fn lemma_loop_stmts_opened(st: LoopSt, block: Seq<Sp<StmtV>>, n: nat)
    requires
        n <= block.len(),
        loop_stmts(st, block, n).1.errors.len() == st.errors.len(),
    ensures
        loop_stmts(st, block, n).0.len() == n,
        forall|i: int|
            0 <= i < n ==> opened(block[i], #[trigger] loop_stmts(st, block, n).0[i]),
    decreases block, n,
{
    if n > 0 {
        let (before, st1) = loop_stmts(st, block, (n - 1) as nat);
        let stmt = block[n - 1];
        let (body, st2) = loop_body(st1, stmt.value.body);
        lemma_loop_stmts(st, block, (n - 1) as nat);
        match stmt.value.body.value {
            BodyV::Loop { block: inner } => {
                law_no_loops_left(st1, inner);
                law_unrolled_block_stands_for_block(st1, inner);
            },
            BodyV::While { block: inner, .. } => {
                law_no_loops_left(st1, inner);
                law_unrolled_block_stands_for_block(st1, inner);
            },
            _ => {},
        }
        lemma_loop_stmts_opened(st, block, (n - 1) as nat);
        let all = loop_stmts(st, block, n).0;
        assert(all.drop_last() =~= before);
        assert(opened(stmt, all.last()));
        assert forall|i: int| 0 <= i < n implies opened(block[i], #[trigger] all[i]) by {
            if i < n - 1 {
                assert(all[i] == before[i]);
            }
        }
    }
}

/// Where nothing went wrong, the code of a block stands for its statements, at any depth: those
/// that are no loops are there in their order, and each loop is a label, what stands for its own
/// statements, and a jump back to the label.
pub proof fn law_unrolled_block_stands_for_block(st: LoopSt, block: Seq<Sp<StmtV>>)
    ensures
        loop_block(st, block).1.errors.len() == st.errors.len() ==> stands_for(
            block,
            block.len(),
            loop_block(st, block).0,
        ),
    decreases block, block.len() + 1,
{
    let (inner, st1) = loop_stmts(st, block, block.len());
    let (out, st2) = unroll_all(st1, inner, inner.len());
    lemma_loop_stmts(st, block, block.len());
    lemma_unroll_errors(st1, inner, inner.len());
    if st2.errors.len() == st.errors.len() {
        lemma_loop_stmts_opened(st, block, block.len());
        lemma_unroll_all_stands(st1, block, inner, block.len());
    }
}

/// How many loops there are that get a label, among the first `n` statements and inside them.
pub open spec fn labelled_loops(block: Seq<Sp<StmtV>>, n: nat) -> nat
    decreases block, n,
{
    if n == 0 || n > block.len() {
        0
    } else {
        labelled_loops(block, (n - 1) as nat) + match block[n - 1].value.body.value {
            BodyV::Loop { block } => 1 + labelled_loops(block, block.len()),
            BodyV::While { is_do_while, block, .. } => labelled_loops(block, block.len()) + (
            if is_do_while {
                1nat
            } else {
                0nat
            }),
            _ => 0,
        }
    }
}

/// How many of the first `n` statements are loops that get a label.
spec fn own_loops(block: Seq<Sp<StmtV>>, n: nat) -> nat
    decreases n,
{
    if n == 0 {
        0
    } else {
        own_loops(block, (n - 1) as nat) + if loop_parts(block[n - 1].value.body.value) is Some {
            1nat
        } else {
            0nat
        }
    }
}

/// Whether so many numbers were taken, with an error just if there were not enough.
pub open spec fn takes_numbers(st: LoopSt, after: LoopSt, count: nat) -> bool {
    let enough = st.next + count <= u64::MAX;
    &&& after.next == if enough {
        st.next + count
    } else {
        u64::MAX as int
    }
    &&& st.errors.len() <= after.errors.len()
    &&& enough <==> st.errors.len() == after.errors.len()
}

proof fn lemma_unroll_takes(st: LoopSt, stmts: Seq<Sp<StmtV>>, n: nat)
    ensures
        takes_numbers(st, unroll_all(st, stmts, n).1, own_loops(stmts, n)),
    decreases n,
{
    if n > 0 {
        lemma_unroll_takes(st, stmts, (n - 1) as nat);
    }
}

proof fn lemma_stmts_take(st: LoopSt, block: Seq<Sp<StmtV>>, n: nat)
    requires
        n <= block.len(),
    ensures
        labelled_loops(block, n) >= own_loops(block, n),
        takes_numbers(
            st,
            loop_stmts(st, block, n).1,
            (labelled_loops(block, n) - own_loops(block, n)) as nat,
        ),
        loop_stmts(st, block, n).0.len() == n,
        forall|i: int|
            0 <= i < n ==> (loop_parts(
                (#[trigger] loop_stmts(st, block, n).0[i]).value.body.value,
            ) is Some <==> loop_parts(block[i].value.body.value) is Some),
    decreases block, n,
{
    if n > 0 {
        let m = (n - 1) as nat;
        lemma_stmts_take(st, block, m);
        let (out, st1) = loop_stmts(st, block, m);
        let body = block[n - 1].value.body;
        match body.value {
            BodyV::Loop { block: b } => law_each_loop_takes_one_number(st1, b),
            BodyV::While { block: b, .. } => law_each_loop_takes_one_number(st1, b),
            _ => {},
        }
        let (new, st2) = loop_body(st1, body);
        assert(loop_parts(new.value) is Some <==> loop_parts(body.value) is Some);
        let (all, end) = loop_stmts(st, block, n);
        assert(end == st2);
        assert(all[n - 1].value.body == new);
        assert forall|i: int| 0 <= i < n implies (loop_parts(
            (#[trigger] all[i]).value.body.value,
        ) is Some <==> loop_parts(block[i].value.body.value) is Some) by {
            if i < m {
                assert(all[i] == out[i]);
            }
        }
    }
}

proof fn lemma_own_loops(a: Seq<Sp<StmtV>>, b: Seq<Sp<StmtV>>, n: nat)
    requires
        forall|i: int|
            0 <= i < n ==> (loop_parts((#[trigger] a[i]).value.body.value) is Some <==> loop_parts(
                b[i].value.body.value,
            ) is Some),
    ensures
        own_loops(a, n) == own_loops(b, n),
    decreases n,
{
    if n > 0 {
        lemma_own_loops(a, b, (n - 1) as nat);
        assert(loop_parts(a[n - 1].value.body.value) is Some <==> loop_parts(
            b[n - 1].value.body.value,
        ) is Some);
    }
}

/// Every loop that gets a label takes a number of its own, those inside it too, and there is an
/// error just if there are not enough numbers for all of them.
pub proof fn law_each_loop_takes_one_number(st: LoopSt, block: Seq<Sp<StmtV>>)
    ensures
        takes_numbers(st, loop_block(st, block).1, labelled_loops(block, block.len())),
    decreases block, block.len() + 1,
{
    lemma_stmts_take(st, block, block.len());
    let (inner, st1) = loop_stmts(st, block, block.len());
    lemma_unroll_takes(st1, inner, inner.len());
    lemma_own_loops(inner, block, block.len());
}

} // verus!
