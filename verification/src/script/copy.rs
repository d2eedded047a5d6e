//! Copies of syntax trees.

use crate::pos::{Sp, Spanned};
use crate::script::{
    body_view, cond_view, decl_view, decls_view, expr_view, exprs_view, field_seq_view, goto_view,
    ident_view, item_view, items_view, label_view, lemma_exprs_view, lemma_field_seq_view,
    lemma_metas_view, lemma_stmts_view, meta_view, metas_view, stmt_view, stmts_view, string_view,
    Block, Cond, Expr, Fields, Item, Meta, Script, Stmt, StmtBody, StmtGoto, StmtLabel, Var,
};
use crate::ident::Ident;
use vstd::prelude::*;

verus! {

fn copy_expr(e: &Sp<Expr>) -> (r: Sp<Expr>)
    ensures
        expr_view(r) == expr_view(*e),
    decreases *e,
{
    let value = match &e.value {
        Expr::Ternary { cond, left, right } => Expr::Ternary {
            cond: Box::new(copy_expr(&**cond)),
            left: Box::new(copy_expr(&**left)),
            right: Box::new(copy_expr(&**right)),
        },
        Expr::Binop(a, op, b) => Expr::Binop(
            Box::new(copy_expr(&**a)),
            *op,
            Box::new(copy_expr(&**b)),
        ),
        Expr::Call { func, args } => Expr::Call { func: func.clone(), args: copy_exprs(args) },
        Expr::Unop(op, b) => Expr::Unop(*op, Box::new(copy_expr(&**b))),
        Expr::LitInt { value, hex } => Expr::LitInt { value: *value, hex: *hex },
        Expr::LitFloat { value } => Expr::LitFloat { value: *value },
        Expr::LitString { string } => Expr::LitString { string: string.clone() },
        Expr::Var(var) => Expr::Var(var.clone()),
    };
    Spanned { span: e.span, value }
}

fn copy_exprs(es: &Vec<Sp<Expr>>) -> (r: Vec<Sp<Expr>>)
    ensures
        exprs_view(r@, r@.len()) == exprs_view(es@, es@.len()),
    decreases *es,
{
    let mut out: Vec<Sp<Expr>> = Vec::new();
    let mut i: usize = 0;
    while i < es.len()
        invariant
            i <= es@.len(),
            out@.len() == i,
            forall|j: int| 0 <= j < i ==> expr_view(#[trigger] out@[j]) == expr_view(es@[j]),
        decreases es@.len() - i,
    {
        assert(decreases_to!(*es => es@[i as int]));
        out.push(copy_expr(&es[i]));
        i = i + 1;
    }
    proof {
        lemma_exprs_view(out@, out@.len());
        lemma_exprs_view(es@, es@.len());
        assert(exprs_view(out@, out@.len()) =~= exprs_view(es@, es@.len()));
    }
    out
}

fn copy_cond(c: &Sp<Cond>) -> (r: Sp<Cond>)
    ensures
        cond_view(r) == cond_view(*c),
{
    let value = match &c.value {
        Cond::Decrement(var) => Cond::Decrement(var.clone()),
        Cond::Expr(e) => Cond::Expr(copy_expr(e)),
    };
    Spanned { span: c.span, value }
}

fn copy_goto(x: &StmtGoto) -> (r: StmtGoto)
    ensures
        goto_view(r) == goto_view(*x),
{
    StmtGoto { destination: x.destination.clone(), time: x.time }
}

fn copy_labels(labels: &Vec<Sp<StmtLabel>>) -> (r: Vec<Sp<StmtLabel>>)
    ensures
        r@.map_values(|l: Sp<StmtLabel>| label_view(l)) == labels@.map_values(
            |l: Sp<StmtLabel>| label_view(l),
        ),
{
    let mut out: Vec<Sp<StmtLabel>> = Vec::new();
    let mut i: usize = 0;
    while i < labels.len()
        invariant
            i <= labels@.len(),
            out@.len() == i,
            forall|j: int| 0 <= j < i ==> label_view(#[trigger] out@[j]) == label_view(labels@[j]),
        decreases labels@.len() - i,
    {
        let value = match &labels[i].value {
            StmtLabel::Label(ident) => StmtLabel::Label(ident.clone()),
            StmtLabel::Difficulty { temporary, flags } => StmtLabel::Difficulty {
                temporary: *temporary,
                flags: flags.clone(),
            },
        };
        out.push(Spanned { span: labels[i].span, value });
        i = i + 1;
    }
    assert(out@.map_values(|l: Sp<StmtLabel>| label_view(l)) =~= labels@.map_values(
        |l: Sp<StmtLabel>| label_view(l),
    ));
    out
}

fn copy_decls(vars: &Vec<(Sp<Var>, Option<Sp<Expr>>)>) -> (r: Vec<(Sp<Var>, Option<Sp<Expr>>)>)
    ensures
        decls_view(r@) == decls_view(vars@),
{
    let mut out: Vec<(Sp<Var>, Option<Sp<Expr>>)> = Vec::new();
    let mut i: usize = 0;
    while i < vars.len()
        invariant
            i <= vars@.len(),
            out@.len() == i,
            forall|j: int| 0 <= j < i ==> decl_view(#[trigger] out@[j]) == decl_view(vars@[j]),
        decreases vars@.len() - i,
    {
        let init = match &vars[i].1 {
            Some(e) => Some(copy_expr(e)),
            None => None,
        };
        out.push((vars[i].0.clone(), init));
        i = i + 1;
    }
    assert(decls_view(out@) =~= decls_view(vars@));
    out
}

fn copy_stmt(x: &Sp<Stmt>) -> (r: Sp<Stmt>)
    ensures
        stmt_view(r) == stmt_view(*x),
    decreases *x,
{
    let body = copy_body(&x.value.body);
    let labels = copy_labels(&x.value.labels);
    Spanned { span: x.span, value: Stmt { time: x.value.time, labels, body } }
}

fn copy_body(x: &Sp<StmtBody>) -> (r: Sp<StmtBody>)
    ensures
        body_view(r) == body_view(*x),
    decreases *x,
{
    let value = match &x.value {
        StmtBody::Jump(goto) => StmtBody::Jump(copy_goto(goto)),
        StmtBody::CondJump { keyword, cond, jump } => StmtBody::CondJump {
            keyword: *keyword,
            cond: copy_cond(cond),
            jump: copy_goto(jump),
        },
        StmtBody::Loop { block } => StmtBody::Loop { block: Block(copy_stmts(&block.0)) },
        StmtBody::While { is_do_while, cond, block } => StmtBody::While {
            is_do_while: *is_do_while,
            cond: copy_cond(cond),
            block: Block(copy_stmts(&block.0)),
        },
        StmtBody::Expr(e) => StmtBody::Expr(copy_expr(e)),
        StmtBody::Assignment { var, op, value } => StmtBody::Assignment {
            var: var.clone(),
            op: *op,
            value: copy_expr(value),
        },
        StmtBody::Declaration { keyword, vars } => StmtBody::Declaration {
            keyword: *keyword,
            vars: copy_decls(vars),
        },
        StmtBody::InterruptLabel(n) => StmtBody::InterruptLabel(*n),
        StmtBody::Label(ident) => StmtBody::Label(ident.clone()),
        StmtBody::NoInstruction => StmtBody::NoInstruction,
    };
    Spanned { span: x.span, value }
}

fn copy_stmts(stmts: &Vec<Sp<Stmt>>) -> (r: Vec<Sp<Stmt>>)
    ensures
        stmts_view(r@, r@.len()) == stmts_view(stmts@, stmts@.len()),
    decreases *stmts,
{
    let mut out: Vec<Sp<Stmt>> = Vec::new();
    let mut i: usize = 0;
    while i < stmts.len()
        invariant
            i <= stmts@.len(),
            out@.len() == i,
            forall|j: int| 0 <= j < i ==> stmt_view(#[trigger] out@[j]) == stmt_view(stmts@[j]),
        decreases stmts@.len() - i,
    {
        assert(decreases_to!(*stmts => stmts@[i as int]));
        out.push(copy_stmt(&stmts[i]));
        i = i + 1;
    }
    proof {
        lemma_stmts_view(out@, out@.len());
        lemma_stmts_view(stmts@, stmts@.len());
        assert(stmts_view(out@, out@.len()) =~= stmts_view(stmts@, stmts@.len()));
    }
    out
}

fn copy_meta(x: &Sp<Meta>) -> (r: Sp<Meta>)
    ensures
        meta_view(r) == meta_view(*x),
    decreases *x,
{
    let value = match &x.value {
        Meta::Scalar(e) => Meta::Scalar(copy_expr(e)),
        Meta::Array(items) => Meta::Array(copy_metas(items)),
        Meta::Object(fields) => Meta::Object(
            Spanned { span: fields.span, value: Fields(copy_field_list(&fields.value.0)) },
        ),
        Meta::Variant { name, fields } => Meta::Variant {
            name: name.clone(),
            fields: Spanned { span: fields.span, value: Fields(copy_field_list(&fields.value.0)) },
        },
    };
    Spanned { span: x.span, value }
}

fn copy_metas(items: &Vec<Sp<Meta>>) -> (r: Vec<Sp<Meta>>)
    ensures
        metas_view(r@, r@.len()) == metas_view(items@, items@.len()),
    decreases *items,
{
    let mut out: Vec<Sp<Meta>> = Vec::new();
    let mut i: usize = 0;
    while i < items.len()
        invariant
            i <= items@.len(),
            out@.len() == i,
            forall|j: int| 0 <= j < i ==> meta_view(#[trigger] out@[j]) == meta_view(items@[j]),
        decreases items@.len() - i,
    {
        assert(decreases_to!(*items => items@[i as int]));
        out.push(copy_meta(&items[i]));
        i = i + 1;
    }
    proof {
        lemma_metas_view(out@, out@.len());
        lemma_metas_view(items@, items@.len());
        assert(metas_view(out@, out@.len()) =~= metas_view(items@, items@.len()));
    }
    out
}

fn copy_field_list(list: &Vec<(Sp<Ident>, Sp<Meta>)>) -> (r: Vec<(Sp<Ident>, Sp<Meta>)>)
    ensures
        field_seq_view(r@, r@.len()) == field_seq_view(list@, list@.len()),
    decreases *list,
{
    let mut out: Vec<(Sp<Ident>, Sp<Meta>)> = Vec::new();
    let mut i: usize = 0;
    while i < list.len()
        invariant
            i <= list@.len(),
            out@.len() == i,
            forall|j: int|
                0 <= j < i ==> ident_view((#[trigger] out@[j]).0) == ident_view(list@[j].0)
                    && meta_view(out@[j].1) == meta_view(list@[j].1),
        decreases list@.len() - i,
    {
        assert(decreases_to!(*list => list@[i as int]));
        assert(decreases_to!(list@[i as int] => list@[i as int].1));
        out.push((list[i].0.clone(), copy_meta(&list[i].1)));
        i = i + 1;
    }
    proof {
        lemma_field_seq_view(out@, out@.len());
        lemma_field_seq_view(list@, list@.len());
        assert(field_seq_view(out@, out@.len()) =~= field_seq_view(list@, list@.len()));
    }
    out
}

fn copy_strings(strings: &Vec<Sp<String>>) -> (r: Vec<Sp<String>>)
    ensures
        r@.map_values(|f: Sp<String>| string_view(f)) == strings@.map_values(
            |f: Sp<String>| string_view(f),
        ),
{
    let mut out: Vec<Sp<String>> = Vec::new();
    let mut i: usize = 0;
    while i < strings.len()
        invariant
            i <= strings@.len(),
            out@.len() == i,
            forall|j: int|
                0 <= j < i ==> string_view(#[trigger] out@[j]) == string_view(strings@[j]),
        decreases strings@.len() - i,
    {
        out.push(Spanned { span: strings[i].span, value: strings[i].value.clone() });
        i = i + 1;
    }
    assert(out@.map_values(|f: Sp<String>| string_view(f)) =~= strings@.map_values(
        |f: Sp<String>| string_view(f),
    ));
    out
}

fn copy_item(x: &Sp<Item>) -> (r: Sp<Item>)
    ensures
        item_view(r) == item_view(*x),
{
    let value = match &x.value {
        Item::Meta { keyword, name, fields } => Item::Meta {
            keyword: *keyword,
            name: match name {
                Some(name) => Some(name.clone()),
                None => None,
            },
            fields: Spanned { span: fields.span, value: Fields(copy_field_list(&fields.value.0)) },
        },
        Item::AnmScript { number, name, code } => Item::AnmScript {
            number: *number,
            name: name.clone(),
            code: Block(copy_stmts(&code.0)),
        },
        Item::FileList { files } => Item::FileList { files: copy_strings(files) },
        Item::Func { name, code } => Item::Func {
            name: name.clone(),
            code: match code {
                Some(block) => Some(Block(copy_stmts(&block.0))),
                None => None,
            },
        },
    };
    Spanned { span: x.span, value }
}

impl Clone for Script {
    fn clone(&self) -> (r: Self)
        ensures
            r@ == self@,
    {
        let mut items: Vec<Sp<Item>> = Vec::new();
        let mut i: usize = 0;
        while i < self.items.len()
            invariant
                i <= self.items@.len(),
                items@.len() == i,
                forall|j: int|
                    0 <= j < i ==> item_view(#[trigger] items@[j]) == item_view(self.items@[j]),
            decreases self.items@.len() - i,
        {
            items.push(copy_item(&self.items[i]));
            i = i + 1;
        }
        let r = Script { mapfiles: copy_strings(&self.mapfiles), items };
        assert(items_view(items@) =~= items_view(self.items@));
        r
    }
}

} // verus!
