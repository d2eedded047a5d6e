use std::collections::HashMap;
use truth::ast::visit::{walk_expr, walk_item, walk_stmt, Part};
use truth::ast::{
    AssignOpKind, BinOpKind, Block, CallableName, CondKeyword, Expr, ExprCall, FuncParam,
    FuncQualifier, IntRadix, Item, ItemFunc, LitString, OpClass, PseudoArg, PseudoArgKind,
    ScriptFile, Stmt, StmtKind, TypeKeyword, UnOpKind, Var, VarName, VarSigil, XcrementOpKind,
    XcrementOpOrder,
};
use truth::context::{
    CompilerContext, DefInfo, DefTables, Defs, EnumConst, InsSignature, RegTy, Signature,
    SignatureParam, TypeColor,
};
use truth::float32::F32;
use truth::game::LanguageKey;
use truth::ident::{Ident, ResIdent};
use truth::passes::type_check::{self, TypeDiag};
use truth::pos::{sp, BytePos, Sp, Span, Spanned};
use truth::resolve::node_id_helpers::{expect_node_id, id_map_insert, IdMap, NodeIdBug};
use truth::resolve::resolve_names::{NameDiag, Visitor};
use truth::resolve::rib::{BarrierKind, ResolveError, Rib, RibKind, RibStacks};
use truth::resolve::{DefId, Namespace, NodeId, RegId, Resolutions, UnusedIds};
use truth::value::{ExprType, ScalarType, VarType};

const VALUE_INT: ExprType = ExprType::Value(ScalarType::Int);

fn context() -> CompilerContext {
    CompilerContext {
        resolutions: Resolutions::new(),
        defs: Defs {
            infos: HashMap::new(),
            tables: DefTables {
                reg_types: vec![RegTy {
                    language: LanguageKey::Anm,
                    reg: RegId(10),
                    ty: VarType::Typed(ScalarType::Float),
                }],
                ins_signatures: vec![],
                enum_consts: vec![],
                enum_const_dummy: DefId(900),
            },
        },
    }
}

/// Names of things, each mention of which is counted.
struct Names {
    ctx: CompilerContext,
}

impl Names {
    fn new() -> Names {
        Names { ctx: context() }
    }

    fn ident(&mut self, name: &str) -> ResIdent {
        self.ctx.resolutions.attach_fresh_res(Ident::new(name))
    }

    fn var(&mut self, name: &str) -> Sp<Var> {
        let name = VarName::new_non_reg(self.ident(name));
        sp(Var { ty_sigil: None, name })
    }

    fn read(&mut self, name: &str) -> Sp<Expr> {
        sp(Expr::Var(self.var(name)))
    }

    fn call(&mut self, name: &str, args: Vec<Sp<Expr>>) -> Sp<Expr> {
        let name = sp(CallableName::Normal { ident: self.ident(name), language_if_ins: None });
        sp(Expr::Call(ExprCall { name, pseudos: vec![], args }))
    }

    fn declare(&mut self, ty: TypeKeyword, name: &str, value: Option<Sp<Expr>>) -> Sp<Stmt> {
        let var = self.var(name);
        stmt(StmtKind::Declaration { ty_keyword: sp(ty), vars: vec![sp((var, value))] })
    }

    fn func(
        &mut self,
        ty: TypeKeyword,
        name: &str,
        params: &[(TypeKeyword, &str)],
        code: Vec<Sp<Stmt>>,
    ) -> Sp<Item> {
        let params = params
            .iter()
            .map(|(ty, name)| {
                sp(FuncParam { ty_keyword: sp(*ty), ident: Some(sp(self.ident(name))) })
            })
            .collect();
        sp(Item::Func(ItemFunc {
            qualifier: Some(sp(FuncQualifier::Inline)),
            ty_keyword: sp(ty),
            ident: sp(self.ident(name)),
            params,
            code: Some(Block(code)),
        }))
    }

    /// Resolve the names of a file and check its types.
    fn check(self, items: Vec<Sp<Item>>) -> (Vec<NameDiag<Ident>>, Vec<TypeDiag>) {
        let file = ScriptFile { mapfiles: vec![], image_sources: vec![], items };
        let mut visitor = Visitor::new(self.ctx, vec![]);
        visitor.visit(&file);
        let (ctx, names) = visitor.finish();
        match names {
            Err(diags) => (diags, vec![]),
            Ok(warnings) => match type_check::run(&file, &ctx) {
                Ok(types) => (warnings, types),
                Err(types) => (warnings, types),
            },
        }
    }
}

fn stmt(kind: StmtKind) -> Sp<Stmt> {
    sp(Stmt { node_id: Some(NodeId(1)), diff_label: None, kind })
}

fn lit(value: i32) -> Sp<Expr> {
    sp(Expr::LitInt { value, radix: IntRadix::Dec })
}

fn float(value: f32) -> Sp<Expr> {
    sp(Expr::LitFloat { value: F32::from_bits(value.to_bits()) })
}

fn text(s: &str) -> Sp<Expr> {
    sp(Expr::LitString(LitString { string: String::from(s) }))
}

fn binop(a: Sp<Expr>, op: BinOpKind, b: Sp<Expr>) -> Sp<Expr> {
    sp(Expr::BinOp(Box::new(a), sp(op), Box::new(b)))
}

fn reg(n: i32, ty_sigil: Option<VarSigil>) -> Sp<Var> {
    let name = VarName::Reg { reg: RegId(n), language: Some(LanguageKey::Anm) };
    sp(Var { ty_sigil, name })
}

fn ret(value: Option<Sp<Expr>>) -> Sp<Stmt> {
    stmt(StmtKind::Return { keyword: sp(()), value })
}

// -----------------------------------------------------------------------------
// names

#[test]
fn functions_can_be_used_before_they_are_defined() {
    let mut n = Names::new();
    let call = n.call("f", vec![lit(1)]);
    let main = n.func(TypeKeyword::Void, "main", &[], vec![stmt(StmtKind::Expr(call))]);
    let f = n.func(TypeKeyword::Void, "f", &[(TypeKeyword::Int, "x")], vec![]);
    let (names, types) = n.check(vec![main, f]);
    assert!(names.is_empty());
    assert!(types.is_empty());
}

#[test]
fn variables_end_with_their_block() {
    let mut n = Names::new();
    let inner = vec![n.declare(TypeKeyword::Int, "x", None)];
    let after = n.read("x");
    let code = vec![
        stmt(StmtKind::Block(Block(inner))),
        n.declare(TypeKeyword::Int, "y", Some(after)),
    ];
    let main = n.func(TypeKeyword::Void, "main", &[], code);
    let (names, _) = n.check(vec![main]);
    assert_eq!(names.len(), 1);
    match &names[0] {
        NameDiag::Resolve(ResolveError::Unknown { ns, name, elsewhere, .. }) => {
            assert_eq!(*ns, Namespace::Vars);
            assert!(name.is("x"));
            assert_eq!(*elsewhere, None);
        },
        _ => panic!("expected an unknown name"),
    }
}

#[test]
fn a_variable_is_not_in_its_own_initializer() {
    let mut n = Names::new();
    let x = n.read("x");
    let code = vec![n.declare(TypeKeyword::Int, "x", Some(x))];
    let main = n.func(TypeKeyword::Void, "main", &[], code);
    let (names, _) = n.check(vec![main]);
    assert!(matches!(names[0], NameDiag::Resolve(ResolveError::Unknown { .. })));
}

#[test]
fn items_cannot_use_locals_around_them() {
    let mut n = Names::new();
    let x = n.read("x");
    let inner = n.func(TypeKeyword::Int, "f", &[], vec![ret(Some(x))]);
    let code = vec![
        n.declare(TypeKeyword::Int, "x", Some(lit(1))),
        stmt(StmtKind::Item(Box::new(inner))),
    ];
    let main = n.func(TypeKeyword::Void, "main", &[], code);
    let (names, _) = n.check(vec![main]);
    match &names[0] {
        NameDiag::Resolve(ResolveError::LocalFromOutside { kind, item, .. }) => {
            assert_eq!(*kind, RibKind::Locals);
            assert_eq!(*item, BarrierKind::Function);
        },
        _ => panic!("expected a local from outside"),
    }
}

#[test]
fn redefinitions_are_errors() {
    let mut n = Names::new();
    let a = n.func(TypeKeyword::Void, "f", &[], vec![]);
    let b = n.func(TypeKeyword::Void, "f", &[], vec![]);
    let (names, _) = n.check(vec![a, b]);
    match &names[0] {
        NameDiag::Redefinition { ns, kind, name, .. } => {
            assert_eq!(*ns, Namespace::Funcs);
            assert_eq!(*kind, RibKind::Items);
            assert!(name.is("f"));
        },
        _ => panic!("expected a redefinition"),
    }
    // in another block a name can be used again
    let mut n = Names::new();
    let inner = vec![n.declare(TypeKeyword::Int, "x", None)];
    let code = vec![
        n.declare(TypeKeyword::Int, "x", None),
        stmt(StmtKind::Block(Block(inner))),
    ];
    let main = n.func(TypeKeyword::Void, "main", &[], code);
    assert!(n.check(vec![main]).0.is_empty());
    let mut n = Names::new();
    let code = vec![
        n.declare(TypeKeyword::Int, "x", None),
        n.declare(TypeKeyword::Int, "x", None),
    ];
    let main = n.func(TypeKeyword::Void, "main", &[], code);
    assert!(matches!(
        n.check(vec![main]).0[0],
        NameDiag::Redefinition { kind: RibKind::Locals, .. }
    ));
}

#[test]
fn mentions_must_be_counted() {
    let n = Names::new();
    let name = VarName::new_non_reg(ResIdent { ident: Ident::new("x"), res: None });
    let var = sp(Var { ty_sigil: None, name });
    let item = sp(Item::ConstVar {
        ty_keyword: sp(TypeKeyword::Int),
        vars: vec![sp((var, lit(3)))],
    });
    let (names, _) = n.check(vec![item]);
    assert!(matches!(names[0], NameDiag::BadMention { .. }));
}

fn with_enums(n: &mut Names) {
    let consts = [("Color", "Red", 801), ("Color", "Blue", 802), ("Mood", "Blue", 803)];
    for (enum_name, name, id) in consts {
        n.ctx.defs.tables.enum_consts.push(EnumConst {
            enum_name: Ident::new(enum_name),
            name: Ident::new(name),
            def_id: DefId(id),
        });
    }
}

fn enum_rib() -> Rib {
    let mut rib = Rib::new(Namespace::Vars, RibKind::EnumConsts);
    rib.insert(sp(Ident::new("Red")), DefId(900)).ok().unwrap();
    rib.insert(sp(Ident::new("Blue")), DefId(900)).ok().unwrap();
    rib
}

fn resolve_expr(n: Names, expr: &Sp<Expr>) -> (CompilerContext, Vec<NameDiag<Ident>>) {
    let mut visitor = Visitor::new(n.ctx, vec![enum_rib()]);
    visitor.visit(expr);
    let (ctx, diags) = visitor.finish();
    match diags {
        Ok(d) => (ctx, d),
        Err(d) => (ctx, d),
    }
}

#[test]
fn enum_constants() {
    let mut n = Names::new();
    with_enums(&mut n);
    let ident = n.ident("Blue");
    let mention = ident.clone();
    let e = sp(Expr::EnumConst { enum_name: sp(Ident::new("Mood")), ident: sp(ident) });
    let (ctx, diags) = resolve_expr(n, &e);
    assert!(diags.is_empty());
    assert_eq!(ctx.def_of(&mention), Some(DefId(803)));

    let mut n = Names::new();
    with_enums(&mut n);
    let e = sp(Expr::EnumConst {
        enum_name: sp(Ident::new("Mood")),
        ident: sp(n.ident("Red")),
    });
    let (_, diags) = resolve_expr(n, &e);
    assert!(matches!(&diags[0], NameDiag::NoEnumConst { name, .. } if name.is("Red")));

    // only one enum has this one
    let mut n = Names::new();
    with_enums(&mut n);
    let ident = n.ident("Red");
    let mention = ident.clone();
    let name = VarName::new_non_reg(ident);
    let e = sp(Expr::Var(sp(Var { ty_sigil: None, name })));
    let (ctx, diags) = resolve_expr(n, &e);
    assert!(diags.is_empty());
    assert_eq!(ctx.def_of(&mention), Some(DefId(801)));

    let mut n = Names::new();
    with_enums(&mut n);
    let e = n.read("Blue");
    let (_, diags) = resolve_expr(n, &e);
    assert!(matches!(&diags[0], NameDiag::AmbiguousEnumConst { name, .. } if name.is("Blue")));
}

#[test]
fn parameters_tell_which_enum_is_meant() {
    let with_ins = |n: &mut Names| {
        with_enums(n);
        n.ctx.defs.tables.ins_signatures.push(InsSignature {
            language: LanguageKey::Anm,
            opcode: 5,
            siggy: Signature {
                params: vec![SignatureParam {
                    ty: sp(VarType::Typed(ScalarType::Int)),
                    optional: false,
                    ty_color: Some(TypeColor::Enum(Ident::new("Mood"))),
                }],
                return_ty: sp(ExprType::Void),
            },
        });
    };
    let call = |arg: Sp<Expr>| {
        let name = sp(CallableName::Ins { opcode: 5, language: Some(LanguageKey::Anm) });
        sp(Expr::Call(ExprCall { name, pseudos: vec![], args: vec![arg] }))
    };
    let mut n = Names::new();
    with_ins(&mut n);
    let ident = n.ident("Blue");
    let mention = ident.clone();
    let name = VarName::new_non_reg(ident);
    let e = call(sp(Expr::Var(sp(Var { ty_sigil: None, name }))));
    let (ctx, diags) = resolve_expr(n, &e);
    assert!(diags.is_empty());
    assert_eq!(ctx.def_of(&mention), Some(DefId(803)));

    // a constant of another enum is only suspicious
    let mut n = Names::new();
    with_ins(&mut n);
    let e = call(n.read("Red"));
    let (_, diags) = resolve_expr(n, &e);
    match &diags[0] {
        NameDiag::SuspiciousEnumConst { const_enum, name, expected_enum, .. } => {
            assert!(const_enum.is("Color"));
            assert!(name.is("Red"));
            assert!(expected_enum.is("Mood"));
        },
        _ => panic!("expected a warning"),
    }
}

// -----------------------------------------------------------------------------
// ribs

fn found(stacks: &RibStacks, language: Option<LanguageKey>, name: &str) -> Option<DefId> {
    stacks.resolve(Namespace::Vars, Span::default(), language, &Ident::new(name)).ok()
}

#[test]
fn innermost_rib_wins() {
    let mut outer = Rib::new(Namespace::Vars, RibKind::Locals);
    outer.insert(sp(Ident::new("x")), DefId(1)).ok().unwrap();
    outer.insert(sp(Ident::new("y")), DefId(2)).ok().unwrap();
    let mut inner = Rib::new(Namespace::Vars, RibKind::Locals);
    inner.insert(sp(Ident::new("x")), DefId(3)).ok().unwrap();
    // a redefinition is an error that gives the earlier one back, and counts from then on
    let earlier = inner.insert(sp(Ident::new("x")), DefId(4)).err().unwrap();
    assert_eq!(earlier.def_id, DefId(3));
    assert_eq!(inner.noun(), "local");
    let mut stacks = RibStacks::from_ribs(vec![outer, inner]);
    assert_eq!(found(&stacks, None, "x"), Some(DefId(4)));
    assert_eq!(found(&stacks, None, "y"), Some(DefId(2)));
    assert_eq!(found(&stacks, None, "z"), None);
    stacks.leave_rib(Namespace::Vars, RibKind::Locals);
    assert_eq!(found(&stacks, None, "x"), Some(DefId(1)));
}

#[test]
fn barriers_hide_locals_but_not_items() {
    let mut stacks = RibStacks::new();
    stacks.enter_new_rib(Namespace::Vars, RibKind::Items);
    let top = stacks.top_rib(Namespace::Vars, RibKind::Items);
    assert!(top.insert(sp(Ident::new("c")), DefId(1)).is_ok());
    assert!(top.insert(sp(Ident::new("y")), DefId(3)).is_ok());
    stacks.enter_new_rib(Namespace::Vars, RibKind::Locals);
    let top = stacks.top_rib(Namespace::Vars, RibKind::Locals);
    assert!(top.insert(sp(Ident::new("x")), DefId(2)).is_ok());
    assert!(top.insert(sp(Ident::new("y")), DefId(4)).is_ok());
    assert_eq!(found(&stacks, None, "y"), Some(DefId(4)));
    let barrier = RibKind::LocalBarrier { of_what: BarrierKind::Const };
    stacks.enter_new_rib(Namespace::Vars, barrier);
    assert_eq!(barrier.local_barrier_cause(), Some("const"));
    assert_eq!(found(&stacks, None, "c"), Some(DefId(1)));
    assert_eq!(found(&stacks, None, "x"), None);
    // what a hidden local shadowed is accessible again
    assert_eq!(found(&stacks, None, "y"), Some(DefId(3)));
    stacks.leave_rib(Namespace::Vars, barrier);
    assert_eq!(found(&stacks, None, "x"), Some(DefId(2)));
}

#[test]
fn aliases_belong_to_a_language() {
    let mut rib = Rib::new(Namespace::Vars, RibKind::Mapfile { language: LanguageKey::Anm });
    rib.insert(sp(Ident::new("I0")), DefId(5)).ok().unwrap();
    assert_eq!(rib.noun(), "register alias");
    let stacks = RibStacks::from_ribs(vec![rib]);
    assert_eq!(found(&stacks, Some(LanguageKey::Anm), "I0"), Some(DefId(5)));
    let ident = Ident::new("I0");
    let e = stacks.resolve(Namespace::Vars, Span::default(), None, &ident).err().unwrap();
    assert!(matches!(e, ResolveError::Unknown { elsewhere: Some(LanguageKey::Anm), .. }));
}

#[test]
fn ids_are_handed_out_once() {
    let mut ids: UnusedIds<NodeId> = UnusedIds::new();
    let a = ids.next();
    let b = ids.next();
    assert_ne!(a, b);
    let mut map: IdMap<&str> = HashMap::new();
    let node = sp(());
    assert!(id_map_insert(&mut map, &node, Some(a), "a").is_ok());
    let e = id_map_insert(&mut map, &node, Some(a), "b").err();
    assert!(matches!(e, Some(NodeIdBug::Duplicate { .. })));
    assert!(matches!(expect_node_id(&node, None), Err(NodeIdBug::Missing { .. })));
    assert_eq!(expect_node_id(&node, Some(b)).ok(), Some(b));
}

#[test]
fn resolutions_are_kept_apart() {
    let mut r = Resolutions::new();
    let a = r.attach_fresh_res(Ident::new("a"));
    let b = r.attach_fresh_res(Ident::new("a"));
    let def = r.record_self_resolution(&a);
    assert_eq!(r.try_get_def(&a), Some(def));
    assert_eq!(r.try_get_def(&b), None);
    r.record_resolution(&b, def);
    assert_eq!(r.expect_def(&b), def);
}

// -----------------------------------------------------------------------------
// types

fn type_of(e: &Sp<Expr>) -> Result<ExprType, Vec<TypeDiag>> {
    let ctx = context();
    match type_check::run(e, &ctx) {
        Ok(_) => Ok(e.value.compute_ty(&ctx)),
        Err(diags) => Err(diags),
    }
}

#[test]
fn types_of_expressions() {
    assert_eq!(type_of(&lit(3)), Ok(VALUE_INT));
    assert_eq!(type_of(&float(3.0)), Ok(ExprType::Value(ScalarType::Float)));
    assert_eq!(type_of(&text("x")), Ok(ExprType::Value(ScalarType::String)));
    let sum = binop(float(1.0), BinOpKind::Add, float(2.0));
    assert_eq!(type_of(&sum), Ok(ExprType::Value(ScalarType::Float)));
    let less = binop(float(1.0), BinOpKind::Lt, float(2.0));
    assert_eq!(type_of(&less), Ok(VALUE_INT));
    let read = sp(Expr::Var(reg(10, None)));
    assert_eq!(type_of(&read), Ok(ExprType::Value(ScalarType::Float)));
    let read = sp(Expr::Var(reg(10, Some(VarSigil::Int))));
    assert_eq!(type_of(&read), Ok(VALUE_INT));
    let sin = sp(Expr::UnOp(sp(UnOpKind::Sin), Box::new(float(1.0))));
    assert_eq!(type_of(&sin), Ok(ExprType::Value(ScalarType::Float)));
}

#[test]
fn type_errors() {
    let e = type_of(&binop(lit(1), BinOpKind::Add, float(2.0))).unwrap_err();
    assert!(matches!(
        e[0],
        TypeDiag::NotSame { left_ty: ScalarType::Int, right_ty: ScalarType::Float, .. }
    ));
    let e = type_of(&binop(text("a"), BinOpKind::Add, text("b"))).unwrap_err();
    assert!(matches!(e[0], TypeDiag::NotNumeric { ty: ScalarType::String, .. }));
    let e = type_of(&binop(float(1.0), BinOpKind::BitAnd, float(1.0))).unwrap_err();
    assert!(matches!(e[0], TypeDiag::NotExact { expected: VALUE_INT, .. }));
    let e = type_of(&sp(Expr::Var(reg(11, None)))).unwrap_err();
    assert!(matches!(e[0], TypeDiag::NeedsTypePrefix { reg: Some(RegId(11)), .. }));
    let name = VarName::new_non_reg(ResIdent { ident: Ident::new("x"), res: None });
    let e = type_of(&sp(Expr::Var(sp(Var { ty_sigil: None, name })))).unwrap_err();
    assert!(matches!(e[0], TypeDiag::Unresolved { .. }));
    let ins = sp(CallableName::Ins { opcode: 3, language: Some(LanguageKey::Std) });
    let call = sp(Expr::Call(ExprCall { name: ins, pseudos: vec![], args: vec![] }));
    let e = type_of(&call).unwrap_err();
    assert!(matches!(e[0], TypeDiag::SignatureUnknown { opcode: 3, .. }));
    let e = type_of(&sp(Expr::DiffSwitch(vec![Some(lit(1)), None]))).unwrap_err();
    assert!(matches!(e[0], TypeDiag::Unsupported { .. }));
}

#[test]
fn types_of_calls() {
    let mut n = Names::new();
    let wrong = n.call("f", vec![float(1.0)]);
    let few = n.call("f", vec![]);
    let used = n.call("f", vec![lit(1)]);
    let code = vec![
        stmt(StmtKind::Expr(wrong)),
        stmt(StmtKind::Expr(few)),
        stmt(StmtKind::Expr(used)),
    ];
    let main = n.func(TypeKeyword::Void, "main", &[], code);
    let f = n.func(
        TypeKeyword::Int,
        "f",
        &[(TypeKeyword::Int, "x")],
        vec![ret(Some(lit(1)))],
    );
    let (names, types) = n.check(vec![main, f]);
    assert!(names.is_empty());
    assert_eq!(types.len(), 3);
    assert!(matches!(
        types[0],
        TypeDiag::WrongArgType { ty: ScalarType::Float, expected: ScalarType::Int, number: 1, .. }
    ));
    assert!(matches!(types[1], TypeDiag::WrongArgCount { min: 1, max: 1, actual: 0, .. }));
    assert!(matches!(types[2], TypeDiag::NotVoid { ty: ScalarType::Int, .. }));
}

#[test]
fn types_of_returns() {
    let mut n = Names::new();
    let f = n.func(TypeKeyword::Int, "f", &[], vec![ret(Some(float(1.0)))]);
    let (_, types) = n.check(vec![f]);
    assert!(matches!(types[0], TypeDiag::NotExact { expected: VALUE_INT, .. }));
    let mut n = Names::new();
    let f = n.func(TypeKeyword::Int, "f", &[], vec![]);
    let (_, types) = n.check(vec![f]);
    assert!(matches!(types[0], TypeDiag::MissingReturn { .. }));
    let diags = type_check::run(&ret(None), &context()).unwrap_err();
    assert!(matches!(diags[0], TypeDiag::ReturnOutsideFunction { .. }));
}

#[test]
fn types_of_assignments() {
    let assign = |value: Sp<Expr>, op: AssignOpKind| {
        stmt(StmtKind::Assignment { var: reg(10, None), op: sp(op), value })
    };
    let ctx = context();
    assert!(type_check::run(&assign(float(1.0), AssignOpKind::Assign), &ctx).is_ok());
    let e = type_check::run(&assign(lit(1), AssignOpKind::Assign), &ctx).unwrap_err();
    assert!(matches!(e[0], TypeDiag::NotSame { .. }));
    let e = type_check::run(&assign(float(1.0), AssignOpKind::BitOr), &ctx).unwrap_err();
    assert!(matches!(e[0], TypeDiag::NotExact { .. }));
}

#[test]
fn blobs_replace_arguments() {
    let pseudo = |value: Sp<Expr>| {
        sp(PseudoArg {
            at_sign: sp(()),
            kind: sp(PseudoArgKind::Blob),
            eq_sign: sp(()),
            value,
        })
    };
    let mut n = Names::new();
    let mut call = n.call("f", vec![]);
    if let Expr::Call(call) = &mut call.value {
        call.pseudos.push(pseudo(text("0000")));
        assert!(call.blob().is_some());
        assert!(!call.actually_has_args());
    }
    let main = n.func(TypeKeyword::Void, "main", &[], vec![stmt(StmtKind::Expr(call))]);
    let f = n.func(TypeKeyword::Void, "f", &[(TypeKeyword::Int, "x")], vec![]);
    let (_, types) = n.check(vec![main, f]);
    assert!(types.is_empty());

    let mut n = Names::new();
    let mut call = n.call("f", vec![lit(1)]);
    if let Expr::Call(call) = &mut call.value {
        call.pseudos.push(pseudo(text("0000")));
    }
    let main = n.func(TypeKeyword::Void, "main", &[], vec![stmt(StmtKind::Expr(call))]);
    let f = n.func(TypeKeyword::Void, "f", &[(TypeKeyword::Int, "x")], vec![]);
    let (_, types) = n.check(vec![main, f]);
    assert!(matches!(types[0], TypeDiag::BlobWithArgs { .. }));
}

// -----------------------------------------------------------------------------
// the syntax tree

#[test]
fn operators() {
    assert_eq!(CondKeyword::If.negate(), CondKeyword::Unless);
    assert_eq!(BinOpKind::Lt.negate_comparison(), Some(BinOpKind::Ge));
    assert_eq!(BinOpKind::Add.negate_comparison(), None);
    assert_eq!(BinOpKind::iter_comparison().len(), 6);
    assert_eq!(BinOpKind::ShiftRightUnsigned.as_str(), ">>>");
    assert_eq!(BinOpKind::Add.class(), OpClass::Arithmetic);
    assert_eq!(AssignOpKind::BitOr.class(), OpClass::Bitwise);
    assert_eq!(AssignOpKind::Add.corresponding_binop(), Some(BinOpKind::Add));
    assert_eq!(AssignOpKind::Assign.corresponding_binop(), None);
    assert_eq!(AssignOpKind::iter()[0], AssignOpKind::Assign);
    assert_eq!(XcrementOpKind::Dec.as_str(), "--");
    assert_eq!(VarSigil::from_ty(ScalarType::String), None);
    assert_eq!(VarSigil::Float.ty(), ScalarType::Float);
    assert_eq!(TypeKeyword::from_expr_ty(ExprType::Void), TypeKeyword::Void);
}

#[test]
fn immediates() {
    let sum = binop(lit(1), BinOpKind::Add, lit(2));
    assert!(lit(1).value.can_lower_to_immediate());
    assert!(!sum.value.can_lower_to_immediate());
    let switch = sp(Expr::DiffSwitch(vec![Some(lit(1)), None, Some(lit(2))]));
    assert!(switch.value.can_lower_to_immediate());
    let switch = sp(Expr::DiffSwitch(vec![Some(lit(1)), Some(sum)]));
    assert!(!switch.value.can_lower_to_immediate());
    assert!(matches!(
        Expr::int_of_ty(3, ScalarType::Float),
        Expr::LitFloat { value } if value.to_bits() == 3.0f32.to_bits()
    ));
}

#[test]
fn heading_of_a_pseudo_argument() {
    let at = |start: u32, end: u32| Spanned {
        span: Span::new(Some(1), BytePos(start), BytePos(end)),
        value: (),
    };
    let arg = PseudoArg {
        at_sign: at(3, 4),
        kind: Spanned {
            span: Span::new(Some(1), BytePos(4), BytePos(8)),
            value: PseudoArgKind::Blob,
        },
        eq_sign: at(8, 9),
        value: text(""),
    };
    assert_eq!(arg.tag_span(), Span::new(Some(1), BytePos(3), BytePos(9)));
}

#[test]
fn words_for_syntax() {
    assert_eq!(lit(1).value.descr(), "literal integer");
    assert_eq!(StmtKind::NoInstruction.descr(), "<NoInstruction>");
    let mut n = Names::new();
    let f = n.func(TypeKeyword::Void, "f", &[], vec![]);
    assert_eq!(f.value.descr(), "inline function definition");
    let name = CallableName::Ins { opcode: 23, language: None };
    assert!(name.text().is("ins_23"));
    assert_eq!(Namespace::Vars.noun_long(None), "variable");
}

#[test]
fn parts_are_visited_in_order() {
    let block = || Block(vec![]);
    let while_loop = |do_keyword: Option<Sp<()>>| {
        stmt(StmtKind::While {
            loop_id: None,
            while_keyword: sp(()),
            do_keyword,
            cond: lit(1),
            block: block(),
        })
    };
    let order = |s: &Sp<Stmt>| -> Vec<&'static str> {
        walk_stmt(s)
            .iter()
            .map(|p| match p {
                Part::NodeId(_) => "id",
                Part::LoopBegin(_) => "begin",
                Part::Block(_) => "block",
                Part::LoopEnd(_) => "end",
                Part::Cond(_) => "cond",
                Part::Expr(_) => "expr",
                Part::Var(_) => "var",
                _ => "other",
            })
            .collect()
    };
    assert_eq!(order(&while_loop(None)), vec!["id", "begin", "block", "end", "cond"]);
    assert_eq!(order(&while_loop(Some(sp(())))), vec!["id", "cond", "begin", "block", "end"]);
    let times = stmt(StmtKind::Times {
        loop_id: None,
        keyword: sp(()),
        clobber: Some(reg(10, None)),
        count: lit(3),
        block: block(),
    });
    assert_eq!(order(&times), vec!["id", "var", "expr", "begin", "block", "end"]);
    let e = sp(Expr::DiffSwitch(vec![Some(lit(1)), None, Some(lit(2))]));
    assert_eq!(walk_expr(&e).len(), 2);
    let e = sp(Expr::XcrementOp {
        op: sp(XcrementOpKind::Inc),
        order: XcrementOpOrder::Pre,
        var: reg(10, None),
    });
    assert!(matches!(walk_expr(&e)[0], Part::Var(_)));
    let mut n = Names::new();
    let f = n.func(TypeKeyword::Void, "f", &[(TypeKeyword::Int, "x")], vec![]);
    let parts = walk_item(&f);
    assert!(matches!(parts[0], Part::ResIdent(name) if name.ident.is("f")));
    assert!(matches!(parts[1], Part::RootBlock(_)));
    assert!(matches!(parts[2], Part::ResIdent(name) if name.ident.is("x")));
}

#[test]
fn aliases_of_registers() {
    let mut n = Names::new();
    let ident = n.ident("speed");
    n.ctx.resolutions.record_resolution(&ident, DefId(700));
    n.ctx.defs.infos.insert(
        700,
        DefInfo::RegAlias { language: LanguageKey::Anm, reg: RegId(10) },
    );
    let name = VarName::new_non_reg(ident);
    assert_eq!(n.ctx.var_reg_from_ast(&name), Some((LanguageKey::Anm, RegId(10))));
    let var = Var { ty_sigil: None, name };
    assert_eq!(n.ctx.var_read_ty_from_ast(&var), Some(VarType::Typed(ScalarType::Float)));
}
