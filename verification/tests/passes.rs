use truth::error::{Diagnostic, Error};
use truth::float32::F32;
use truth::ident::{GensymContext, Ident};
use truth::passes::{compile_loop, const_simplify, resolve_vars};
use truth::passes::const_simplify::{Evaluated, FloatOp, Unfinished};
use truth::pos::{sp, Sp};
use truth::scope::{NameResolver, ScopeId, VarId, Variables};
use truth::script::{
    AssignOpKind, BinopKind, Block, Cond, Expr, Stmt, StmtBody, StmtLabel, UnopKind, Var,
    VarDeclKeyword,
};
use truth::type_system::{RegsAndInstrs, ScalarType};
use truth::value::ScalarValue;

fn f(x: f32) -> F32 {
    F32::from_bits(x.to_bits())
}

fn lit(value: i32) -> Sp<Expr> {
    sp(Expr::LitInt { value, hex: false })
}

fn float(value: f32) -> Sp<Expr> {
    sp(Expr::LitFloat { value: f(value) })
}

fn named(name: &str) -> Sp<Var> {
    sp(Var::Named { ty_sigil: None, ident: Ident::new(name) })
}

fn var(name: &str) -> Sp<Expr> {
    sp(Expr::Var(named(name)))
}

fn binop(a: Sp<Expr>, op: BinopKind, b: Sp<Expr>) -> Sp<Expr> {
    sp(Expr::Binop(Box::new(a), sp(op), Box::new(b)))
}

fn unop(op: UnopKind, b: Sp<Expr>) -> Sp<Expr> {
    sp(Expr::Unop(sp(op), Box::new(b)))
}

fn stmt(time: i32, body: StmtBody) -> Sp<Stmt> {
    sp(Stmt { time, labels: vec![], body: sp(body) })
}

fn assign(name: &str, value: Sp<Expr>) -> StmtBody {
    StmtBody::Assignment { var: named(name), op: sp(AssignOpKind::Assign), value }
}

// -----------------------------------------------------------------------------
// const_simplify

fn simplified(e: Sp<Expr>) -> String {
    let mut e = e;
    let mut visitor = const_simplify::Visitor::new();
    visitor.visit_expr(&mut e);
    visitor.finish().ok().unwrap();
    format!("{:?}", e.value)
}

fn errors_in(e: Sp<Expr>) -> Vec<Error> {
    let mut e = e;
    let mut visitor = const_simplify::Visitor::new();
    visitor.visit_expr(&mut e);
    match visitor.finish() {
        Err(Unfinished::Errors(e)) => e.errors,
        _ => panic!("expected errors"),
    }
}

#[test]
fn integers_are_folded() {
    let e = binop(binop(lit(3), BinopKind::Add, lit(4)), BinopKind::Mul, lit(5));
    assert_eq!(simplified(e), format!("{:?}", lit(35).value));
    let e = binop(var("x"), BinopKind::Add, binop(lit(2), BinopKind::Sub, lit(3)));
    let expected = binop(var("x"), BinopKind::Add, lit(-1));
    assert_eq!(simplified(e), format!("{:?}", expected.value));
}

#[test]
fn trees_are_final_when_no_float_is_missing() {
    let sum = || binop(float(3.0), BinopKind::Add, float(0.5));
    let op = FloatOp { op: BinopKind::Add, a: f(3.0), b: f(0.5) };
    let mut e = sum();
    let mut visitor = const_simplify::Visitor::new();
    visitor.visit_expr(&mut e);
    match visitor.finish() {
        Err(Unfinished::NeedFloats(ops)) => assert_eq!(ops, vec![op]),
        _ => panic!("expected a missing result"),
    }
    let mut visitor = const_simplify::Visitor::with_floats(vec![(op, f(3.5))]);
    visitor.visit_expr(&mut e);
    assert!(visitor.finish().is_ok());
    assert_eq!(format!("{:?}", e.value), format!("{:?}", float(3.5).value));
    // what is missing is told before errors are
    let mut e = binop(sum(), BinopKind::Add, binop(lit(1), BinopKind::Add, float(1.0)));
    let mut visitor = const_simplify::Visitor::new();
    visitor.visit_expr(&mut e);
    assert!(matches!(visitor.finish(), Err(Unfinished::NeedFloats(_))));
}

#[test]
fn integer_operators() {
    let cases = [
        (BinopKind::Add, i32::MAX, 1, i32::MIN),
        (BinopKind::Sub, i32::MIN, 1, i32::MAX),
        (BinopKind::Mul, 0x10000, 0x10000, 0),
        (BinopKind::Div, -7, 2, -3),
        (BinopKind::Div, i32::MIN, -1, i32::MIN),
        (BinopKind::Rem, -7, 2, -1),
        (BinopKind::Rem, 7, -2, 1),
        (BinopKind::Rem, i32::MIN, -1, 0),
        (BinopKind::Eq, 3, 3, 1),
        (BinopKind::Ne, 3, 3, 0),
        (BinopKind::Lt, -1, 0, 1),
        (BinopKind::Le, 0, 0, 1),
        (BinopKind::Gt, -1, 0, 0),
        (BinopKind::Ge, 0, 0, 1),
        (BinopKind::LogicOr, 0, 5, 5),
        (BinopKind::LogicOr, 4, 5, 4),
        (BinopKind::LogicAnd, 0, 5, 0),
        (BinopKind::LogicAnd, 4, 5, 5),
        (BinopKind::BitXor, 6, 3, 5),
        (BinopKind::BitAnd, 6, 3, 2),
        (BinopKind::BitOr, 6, 3, 7),
    ];
    for (op, a, b, expected) in cases {
        assert_eq!(op.const_eval_int(a, b), expected, "{:?} {} {}", op, a, b);
    }
    assert_eq!(UnopKind::Neg.const_eval_int(i32::MIN), i32::MIN);
    assert_eq!(UnopKind::Neg.const_eval_int(5), -5);
    assert_eq!(UnopKind::Not.const_eval_int(0), 1);
    assert_eq!(UnopKind::Not.const_eval_int(1), 0);
    assert_eq!(UnopKind::Not.const_eval_int(-7), 0);
}

#[test]
fn float_comparisons() {
    let table = vec![];
    let samples = [0.0f32, -0.0, 1.0, -1.0, 2.5, f32::INFINITY, f32::NEG_INFINITY, f32::NAN];
    for a in samples {
        for b in samples {
            let cases = [
                (BinopKind::Eq, a == b),
                (BinopKind::Ne, a != b),
                (BinopKind::Lt, a < b),
                (BinopKind::Le, a <= b),
                (BinopKind::Gt, a > b),
                (BinopKind::Ge, a >= b),
            ];
            for (op, expected) in cases {
                let value = op.const_eval_float(&table, f(a), f(b));
                let expected = ScalarValue::Int(if expected { 1 } else { 0 });
                assert_eq!(value, Some(Evaluated::Value(expected)), "{} {:?} {}", a, op, b);
            }
        }
    }
    assert_eq!(BinopKind::BitAnd.const_eval_float(&table, f(1.0), f(1.0)), None);
    assert_eq!(UnopKind::Neg.const_eval_float(f(1.5)), Some(f(-1.5)));
    assert_eq!(UnopKind::Not.const_eval_float(f(1.5)), None);
}

#[test]
fn float_arithmetic_waits_for_results() {
    let op = FloatOp { op: BinopKind::Mul, a: f(1.5), b: f(2.0) };
    assert_eq!(
        BinopKind::Mul.const_eval_float(&vec![], f(1.5), f(2.0)),
        Some(Evaluated::Pending(op))
    );
    let table = vec![(op, f(3.0))];
    assert_eq!(
        BinopKind::Mul.const_eval_float(&table, f(1.5), f(2.0)),
        Some(Evaluated::Value(ScalarValue::Float(f(3.0))))
    );
}

#[test]
fn ternaries_are_folded() {
    let ternary = |cond: Sp<Expr>| {
        sp(Expr::Ternary {
            cond: Box::new(cond),
            left: Box::new(lit(1)),
            right: Box::new(lit(2)),
        })
    };
    assert_eq!(simplified(ternary(lit(7))), format!("{:?}", lit(1).value));
    assert_eq!(simplified(ternary(lit(0))), format!("{:?}", lit(2).value));
    let e = errors_in(ternary(float(0.0)));
    assert!(matches!(e[0], Diagnostic::TernaryCondNotInt { .. }));
}

#[test]
fn constants_that_do_not_fit() {
    let e = errors_in(binop(lit(1), BinopKind::Div, lit(0)));
    assert!(matches!(e[0], Diagnostic::DivisionByZero { .. }));
    let e = errors_in(binop(lit(1), BinopKind::Rem, lit(0)));
    assert!(matches!(e[0], Diagnostic::DivisionByZero { .. }));
    let e = errors_in(binop(lit(1), BinopKind::Add, float(1.0)));
    assert!(matches!(
        &e[0],
        Diagnostic::TypeMismatch { left, right, .. }
            if left.value == ScalarType::Int && right.value == ScalarType::Float
    ));
    let e = errors_in(binop(float(1.0), BinopKind::BitOr, float(1.0)));
    assert!(matches!(e[0], Diagnostic::BadOperand { .. }));
    let e = errors_in(unop(UnopKind::Not, float(1.0)));
    assert!(matches!(e[0], Diagnostic::BadOperand { .. }));
}

#[test]
fn simplifying_twice_changes_nothing() {
    let e = || binop(var("x"), BinopKind::Add, unop(UnopKind::Neg, lit(3)));
    let mut once = e();
    const_simplify::Visitor::new().visit_expr(&mut once);
    let text = format!("{:?}", once.value);
    assert_eq!(simplified(once), text);
}

// -----------------------------------------------------------------------------
// compile_loop

fn unrolled(block: Vec<Sp<Stmt>>) -> Vec<Sp<Stmt>> {
    let mut block = Block(block);
    let mut visitor = compile_loop::Visitor::new(GensymContext::new());
    visitor.visit_block(&mut block);
    visitor.finish().ok().unwrap();
    block.0
}

#[test]
fn loop_is_a_label_and_a_jump() {
    let inner = stmt(10, assign("x", lit(1)));
    let out = unrolled(vec![stmt(3, StmtBody::Loop { block: Block(vec![inner]) })]);
    assert_eq!(out.len(), 3);
    match (&out[0].value.body.value, &out[2].value.body.value) {
        (StmtBody::Label(label), StmtBody::Jump(goto)) => {
            assert!(label.value.is("@loop#0"));
            assert!(goto.destination.value.is("@loop#0"));
            assert_eq!(goto.time, None);
        },
        _ => panic!("expected a label and a jump"),
    }
    assert_eq!(out[0].value.time, 10);
    assert_eq!(out[2].value.time, 10);
}

#[test]
fn do_while_is_a_conditional_jump() {
    let body = StmtBody::While {
        is_do_while: true,
        cond: sp(Cond::Decrement(named("n"))),
        block: Block(vec![]),
    };
    let out = unrolled(vec![stmt(3, body)]);
    assert_eq!(out.len(), 2);
    assert!(matches!(
        &out[1].value.body.value,
        StmtBody::CondJump { cond, .. } if matches!(cond.value, Cond::Decrement(_))
    ));
    // an empty loop has the time of the statement
    assert_eq!(out[0].value.time, 3);
}

#[test]
fn nested_loops_have_their_own_labels() {
    let inner = stmt(0, StmtBody::Loop { block: Block(vec![]) });
    let out = unrolled(vec![stmt(0, StmtBody::Loop { block: Block(vec![inner]) })]);
    let labels: Vec<String> = out
        .iter()
        .filter_map(|s| match &s.value.body.value {
            StmtBody::Label(label) => Some(label.value.text.clone()),
            _ => None,
        })
        .collect();
    assert_eq!(labels, vec!["@loop#1", "@loop#0"]);
}

#[test]
fn labels_of_a_loop_stay_before_it() {
    let labelled = sp(Stmt {
        time: 0,
        labels: vec![sp(StmtLabel::Label(sp(Ident::new("here"))))],
        body: sp(StmtBody::Loop { block: Block(vec![]) }),
    });
    let out = unrolled(vec![labelled]);
    assert_eq!(out[0].value.labels.len(), 1);
    assert_eq!(out[1].value.labels.len(), 0);
}

// -----------------------------------------------------------------------------
// resolve_vars

fn declaration(name: &str, init: Option<Sp<Expr>>) -> StmtBody {
    StmtBody::Declaration { keyword: VarDeclKeyword::Int, vars: vec![(named(name), init)] }
}

fn resolved(block: Vec<Sp<Stmt>>) -> Result<(Vec<Sp<Stmt>>, Variables), Vec<Error>> {
    let mut block = Block(block);
    let mut visitor = resolve_vars::Visitor::new(&RegsAndInstrs::new());
    visitor.visit_block(&mut block);
    match visitor.finish() {
        Ok(vars) => Ok((block.0, vars)),
        Err(e) => Err(e.errors),
    }
}

fn assigned(stmt: &Sp<Stmt>) -> VarId {
    match &stmt.value.body.value {
        StmtBody::Assignment { var, .. } => match var.value {
            Var::Local { var_id, .. } => var_id,
            _ => panic!("not resolved"),
        },
        _ => panic!("expected an assignment"),
    }
}

#[test]
fn names_become_variables() {
    let (code, vars) = resolved(vec![
        stmt(0, declaration("x", Some(lit(1)))),
        stmt(0, assign("x", binop(var("x"), BinopKind::Add, lit(2)))),
    ])
    .unwrap();
    let id = assigned(&code[1]);
    assert_eq!(id, VarId(0));
    assert_eq!(vars.get_type(id), Some(ScalarType::Int));
}

#[test]
fn a_variable_is_not_visible_in_its_own_initializer() {
    let e = resolved(vec![stmt(0, declaration("x", Some(var("x"))))]).err().unwrap();
    assert!(matches!(&e[0], Diagnostic::NoSuchVariable { name } if name.value.is("x")));
}

#[test]
fn blocks_hide_what_they_declare() {
    let inner = vec![stmt(0, declaration("y", None)), stmt(0, assign("y", lit(1)))];
    let e = resolved(vec![
        stmt(0, StmtBody::Loop { block: Block(inner) }),
        stmt(0, assign("y", lit(2))),
    ])
    .err()
    .unwrap();
    assert_eq!(e.len(), 1);
}

#[test]
fn later_declarations_shadow() {
    let (code, _) = resolved(vec![
        stmt(0, declaration("x", None)),
        stmt(0, assign("x", lit(1))),
        stmt(0, declaration("x", None)),
        stmt(0, assign("x", lit(2))),
    ])
    .unwrap();
    assert_eq!(assigned(&code[1]), VarId(0));
    assert_eq!(assigned(&code[3]), VarId(1));
}

#[test]
fn registers_have_names() {
    let mut regs = RegsAndInstrs::new();
    regs.reg_map.push((Ident::new("A"), 100));
    regs.reg_map.push((Ident::new("B"), 101));
    let mut e = var("B");
    let mut visitor = resolve_vars::Visitor::new(&regs);
    visitor.visit_expr(&mut e);
    assert!(visitor.finish().is_ok());
    match &e.value {
        Expr::Var(v) => {
            assert!(matches!(v.value, Var::Local { var_id: VarId(1), .. }));
            assert_eq!(regs.reg_id(&v.value), Some(101));
        },
        _ => panic!("expected a variable"),
    }
}

#[test]
fn scopes_are_left_again() {
    let mut vars = Variables::new();
    let root = ScopeId(0);
    let x = vars.declare(root, Ident::new("x"), Some(ScalarType::Int));
    let mut names = NameResolver::new();
    assert_eq!(names.resolve(&Ident::new("x"), &vars), None);
    let inner = vars.get_scope(x);
    names.enter_descendant(inner, &vars);
    assert_eq!(names.current_scope(), inner);
    assert_eq!(names.resolve(&Ident::new("x"), &vars), Some(x));
    names.return_to_ancestor(root, &vars);
    assert_eq!(names.resolve(&Ident::new("x"), &vars), None);
    let tmp = vars.declare_temporary(None);
    assert_eq!(vars.get_type(tmp), None);
}

#[test]
fn instruction_names() {
    assert!(Ident::new_ins(23).is("ins_23"));
    assert_eq!(Ident::new("ins_23").as_ins(), Some(23));
    assert_eq!(Ident::new("ins_65536").as_ins(), None);
    assert_eq!(Ident::new("in_23").as_ins(), None);
    let mut gensym = GensymContext::new();
    let a = gensym.gensym("@x");
    let b = gensym.gensym("@x");
    assert!(!a.same(&b));
}
