use truth::game::Game;
use truth::ident::Ident;
use truth::instr::lower::Lowerer;
use truth::instr::{
    register_assign_ops, register_binary_ops, InstrArg, IntrinsicInstrs, LowLevelStmt,
};
use truth::pos::{sp, Sp};
use truth::script::{AssignOpKind, BinopKind, Block, Expr, Item, Script, Stmt, StmtBody, Var};
use truth::std_file::format::InstrFormat10;
use truth::type_system::{ScalarType, TypeSystem};

const FORMAT: InstrFormat10 = InstrFormat10 { game: Game::Th12 };

fn lit(value: i32) -> Sp<Expr> {
    sp(Expr::LitInt { value, hex: false })
}

fn named(name: &str) -> Sp<Var> {
    sp(Var::Named { ty_sigil: None, ident: Ident::new(name) })
}

fn binop(a: Sp<Expr>, op: BinopKind, b: Sp<Expr>) -> Sp<Expr> {
    sp(Expr::Binop(Box::new(a), sp(op), Box::new(b)))
}

/// `B + n`
fn b_plus(n: i32) -> Sp<Expr> {
    binop(sp(Expr::Var(named("B"))), BinopKind::Add, lit(n))
}

/// Integers in the registers `A`, `B`, `C` and `D`, and floats in `X`, `Y`, `Z` and `W`.
fn simple_mapfile() -> TypeSystem {
    let mut ctx = TypeSystem::new();
    let names = ["A", "B", "C", "D", "X", "Y", "Z", "W"];
    for (i, name) in names.iter().enumerate() {
        let ty = if i < 4 { ScalarType::Int } else { ScalarType::Float };
        ctx.regs_and_instrs.reg_map.push((Ident::new(name), i as i32));
        ctx.regs_and_instrs.reg_default_types.insert(i as i32, ty);
    }
    ctx
}

/// `void main() { A = value; }` with its names resolved, as instructions with operators.
fn compile_exprs(value: Sp<Expr>) -> Vec<String> {
    let mut ctx = simple_mapfile();
    let body = StmtBody::Assignment { var: named("A"), op: sp(AssignOpKind::Assign), value };
    let code = vec![sp(Stmt { time: 0, labels: vec![], body: sp(body) })];
    let main = Item::Func { name: sp(Ident::new("main")), code: Some(Block(code)) };
    let mut script = Script { mapfiles: vec![], items: vec![sp(main)] };
    assert!(ctx.resolve_names(&mut script).is_ok());

    let code = match &script.items[0].value {
        Item::Func { code: Some(block), .. } => &block.0,
        _ => unreachable!(),
    };
    let mut pairs = vec![];
    register_assign_ops(&mut pairs, 10);
    register_binary_ops(&mut pairs, 30);
    let format = FORMAT;
    let mut lowerer = Lowerer {
        out: vec![],
        intrinsic_instrs: IntrinsicInstrs::from_pairs(pairs),
        instr_format: &format,
    };
    assert!(lowerer.lower_sub_ast(&mut ctx, code).is_ok());
    lowerer
        .out
        .iter()
        .map(|s| match s {
            LowLevelStmt::Instr(instr) => {
                let arg = |i: usize| match &instr.args[i] {
                    InstrArg::Raw(raw) => {
                        if raw.is_var {
                            ["A", "B", "C", "D"][raw.bits as usize].to_string()
                        } else {
                            format!("{}", raw.bits)
                        }
                    },
                    InstrArg::Local(id) => format!("t{}", id.0),
                    _ => unreachable!(),
                };
                let op = match instr.opcode {
                    30 => "+",
                    34 => "*",
                    _ => unreachable!(),
                };
                format!("{} = {} {} {}", arg(0), arg(1), op, arg(2))
            },
            LowLevelStmt::RegAlloc { var, .. } => format!("+t{}", var.0),
            LowLevelStmt::RegFree { var } => format!("-t{}", var.0),
            LowLevelStmt::Label(_) => unreachable!(),
        })
        .collect()
}

#[test]
fn lol() {
    // A = (B + 2) * (B + 3) * (B + 4);
    let value = binop(
        binop(b_plus(2), BinopKind::Mul, b_plus(3)),
        BinopKind::Mul,
        b_plus(4),
    );
    assert_eq!(
        compile_exprs(value),
        vec![
            "A = B + 2",
            "+t8",
            "t8 = B + 3",
            "A = A * t8",
            "-t8",
            "+t9",
            "t9 = B + 4",
            "A = A * t9",
            "-t9",
        ]
    );
}

#[test]
fn lol2() {
    // A = 3 * (B + 2);
    let value = binop(lit(3), BinopKind::Mul, b_plus(2));
    assert_eq!(compile_exprs(value), vec!["A = B + 2", "A = 3 * A"]);
}

#[test]
fn lol3() {
    // A = (B + 2) * 3;
    let value = binop(b_plus(2), BinopKind::Mul, lit(3));
    assert_eq!(compile_exprs(value), vec!["A = B + 2", "A = A * 3"]);
}
