use truth::error::{Diagnostic, Error};
use truth::float32::F32;
use truth::game::Game;
use truth::ident::Ident;
use truth::instr::labels::encode_labels;
use truth::instr::lower::Lowerer;
use truth::instr::raise::raise_instr;
use truth::instr::registers::{assign_registers, assign_registers_from, get_used_regs};
use truth::instr::{
    register_assign_ops, register_binary_ops, register_cond_jumps, Instr, InstrArg,
    IntrinsicInstrKind, IntrinsicInstrs, LowLevelStmt, RawArg, TransOpKind,
};
use truth::pos::{sp, Sp, Span};
use truth::scope::{VarId, Variables};
use truth::script::{
    AssignOpKind, BinopKind, Cond, CondKeyword, Expr, Stmt, StmtBody, StmtGoto, Var, VarSigil,
};
use truth::std_file::format::InstrFormat10;
use truth::type_system::{ArgEncoding, ScalarType, Signature, TypeSystem};

const FORMAT: InstrFormat10 = InstrFormat10 { game: Game::Th12 };

fn lit(value: i32) -> Sp<Expr> {
    sp(Expr::LitInt { value, hex: false })
}

fn reg(n: i32) -> Sp<Var> {
    sp(Var::Register { ty_sigil: Some(VarSigil::Int), reg: n })
}

fn reg_expr(n: i32) -> Sp<Expr> {
    sp(Expr::Var(reg(n)))
}

fn binop(a: Sp<Expr>, op: BinopKind, b: Sp<Expr>) -> Sp<Expr> {
    sp(Expr::Binop(Box::new(a), sp(op), Box::new(b)))
}

fn stmt(body: StmtBody) -> Sp<Stmt> {
    sp(Stmt { time: 7, labels: vec![], body: sp(body) })
}

fn assign(n: i32, op: AssignOpKind, value: Sp<Expr>) -> Sp<Stmt> {
    stmt(StmtBody::Assignment { var: reg(n), op: sp(op), value })
}

fn intrinsics() -> IntrinsicInstrs {
    let mut pairs = vec![(IntrinsicInstrKind::Jmp, 1), (IntrinsicInstrKind::CountJmp, 2)];
    register_assign_ops(&mut pairs, 10);
    register_binary_ops(&mut pairs, 30);
    register_cond_jumps(&mut pairs, 50);
    IntrinsicInstrs::from_pairs(pairs)
}

fn lower(code: Vec<Sp<Stmt>>, ctx: &mut TypeSystem) -> Result<Vec<LowLevelStmt>, Vec<Error>> {
    let format = FORMAT;
    let mut lowerer =
        Lowerer { out: vec![], intrinsic_instrs: intrinsics(), instr_format: &format };
    match lowerer.lower_sub_ast(ctx, &code) {
        Ok(_) => Ok(lowerer.out),
        Err(e) => Err(e.errors),
    }
}

/// Code in a short form: `op(args)`, `+t` and `-t`.
fn text(code: &[LowLevelStmt]) -> Vec<String> {
    code.iter()
        .map(|s| match s {
            LowLevelStmt::Instr(instr) => {
                assert_eq!(instr.time, 7);
                let args: Vec<String> = instr
                    .args
                    .iter()
                    .map(|a| match a {
                        InstrArg::Raw(raw) => {
                            if raw.is_var {
                                format!("r{}", raw.bits)
                            } else {
                                format!("{}", raw.bits as i32)
                            }
                        },
                        InstrArg::Local(id) => format!("t{}", id.0),
                        InstrArg::Label(label) => format!("@{}", label.value.text),
                        InstrArg::TimeOf(label) => format!("timeof({})", label.value.text),
                    })
                    .collect();
                format!("{}({})", instr.opcode, args.join(","))
            },
            LowLevelStmt::Label(label) => format!("{}:", label.value.text),
            LowLevelStmt::RegAlloc { var, .. } => format!("+t{}", var.0),
            LowLevelStmt::RegFree { var } => format!("-t{}", var.0),
        })
        .collect()
}

#[test]
fn simple_assignments() {
    let mut ctx = TypeSystem::new();
    let code = lower(
        vec![
            assign(1, AssignOpKind::Assign, lit(5)),
            assign(1, AssignOpKind::Add, reg_expr(2)),
            assign(1, AssignOpKind::Assign, binop(reg_expr(2), BinopKind::Sub, lit(3))),
        ],
        &mut ctx,
    )
    .unwrap();
    assert_eq!(text(&code), vec!["10(r1,5)", "12(r1,r2)", "32(r1,r2,3)"]);
}

#[test]
fn part_of_an_expression_goes_to_the_destination() {
    // A = (B + 2) * 3;
    let mut ctx = TypeSystem::new();
    let value =
        binop(binop(reg_expr(2), BinopKind::Add, lit(2)), BinopKind::Mul, lit(3));
    let code = lower(vec![assign(1, AssignOpKind::Assign, value)], &mut ctx).unwrap();
    assert_eq!(text(&code), vec!["30(r1,r2,2)", "34(r1,r1,3)"]);
    // A = 3 * (B + 2);
    let value =
        binop(lit(3), BinopKind::Mul, binop(reg_expr(2), BinopKind::Add, lit(2)));
    let code = lower(vec![assign(1, AssignOpKind::Assign, value)], &mut ctx).unwrap();
    assert_eq!(text(&code), vec!["30(r1,r2,2)", "34(r1,3,r1)"]);
}

#[test]
fn part_of_an_expression_goes_to_a_temporary() {
    // A = (B + 2) * (B + 3) * (B + 4);
    let b_plus = |n: i32| binop(reg_expr(2), BinopKind::Add, lit(n));
    let value = binop(
        binop(b_plus(2), BinopKind::Mul, b_plus(3)),
        BinopKind::Mul,
        b_plus(4),
    );
    let mut ctx = TypeSystem::new();
    let code = lower(vec![assign(1, AssignOpKind::Assign, value)], &mut ctx).unwrap();
    assert_eq!(
        text(&code),
        vec![
            "30(r1,r2,2)",
            "+t0",
            "30(t0,r2,3)",
            "34(r1,r1,t0)",
            "-t0",
            "+t1",
            "30(t1,r2,4)",
            "34(r1,r1,t1)",
            "-t1",
        ]
    );
    // A += (B + 2) uses one for the whole value
    let code = lower(vec![assign(1, AssignOpKind::Add, b_plus(2))], &mut TypeSystem::new());
    assert_eq!(text(&code.unwrap()), vec!["+t0", "30(t0,r2,2)", "12(r1,t0)", "-t0"]);
}

#[test]
fn conditional_jumps() {
    let goto = || StmtGoto { destination: sp(Ident::new("a")), time: Some(20) };
    let cond = |cond: Cond| {
        stmt(StmtBody::CondJump { keyword: sp(CondKeyword::If), cond: sp(cond), jump: goto() })
    };
    let mut ctx = TypeSystem::new();
    let sum = binop(reg_expr(2), BinopKind::Add, lit(1));
    let code = lower(
        vec![
            cond(Cond::Decrement(reg(3))),
            cond(Cond::Expr(binop(reg_expr(1), BinopKind::Eq, lit(4)))),
            cond(Cond::Expr(binop(sum, BinopKind::Lt, lit(4)))),
        ],
        &mut ctx,
    )
    .unwrap();
    assert_eq!(
        text(&code),
        vec![
            "2(r3,@a,20)",
            "50(r1,4,@a,20)",
            "+t0",
            "30(t0,r2,1)",
            "54(t0,4,@a,20)",
            "-t0",
        ]
    );
    let goto = StmtBody::Jump(StmtGoto { destination: sp(Ident::new("a")), time: None });
    let code = lower(vec![stmt(goto)], &mut ctx).unwrap();
    assert_eq!(text(&code), vec!["1(@a,timeof(a))"]);
}

#[test]
fn arguments_go_to_temporaries() {
    let mut ctx = TypeSystem::new();
    ctx.regs_and_instrs.opcode_signatures.insert(
        90,
        Signature { encodings: vec![ArgEncoding::Dword, ArgEncoding::Dword] },
    );
    ctx.regs_and_instrs.func_aliases.insert(String::from("shoot"), Ident::new("ins_90"));
    let sum = |n: i32| binop(reg_expr(2), BinopKind::Add, lit(n));
    let call = stmt(StmtBody::Expr(sp(Expr::Call {
        func: sp(Ident::new("shoot")),
        args: vec![sum(1), sum(2)],
    })));
    let code = lower(vec![call], &mut ctx).unwrap();
    assert_eq!(
        text(&code),
        vec!["+t0", "30(t0,r2,1)", "+t1", "30(t1,r2,2)", "90(t0,t1)", "-t1", "-t0"]
    );
}

#[test]
fn types_are_checked() {
    let float = sp(Expr::LitFloat { value: F32::from_i32(1) });
    let mut ctx = TypeSystem::new();
    let e = lower(vec![assign(1, AssignOpKind::Assign, float)], &mut ctx).err().unwrap();
    assert!(matches!(e[0], Diagnostic::TypeMismatch { .. }));
    let untyped = sp(Expr::Var(sp(Var::Register { ty_sigil: None, reg: 5 })));
    let e = lower(vec![assign(1, AssignOpKind::Assign, untyped)], &mut ctx).err().unwrap();
    assert!(matches!(e[0], Diagnostic::NeedsTypePrefix { .. }));
    let unknown = sp(Expr::Var(sp(Var::Named {
        ty_sigil: Some(VarSigil::Int),
        ident: Ident::new("x"),
    })));
    let e = lower(vec![assign(1, AssignOpKind::Assign, unknown)], &mut ctx).err().unwrap();
    assert!(matches!(e[0], Diagnostic::UnrecognizedVariable { .. }));
    let float_reg = sp(Var::Register { ty_sigil: Some(VarSigil::Float), reg: 5 });
    let jump = stmt(StmtBody::CondJump {
        keyword: sp(CondKeyword::If),
        cond: sp(Cond::Decrement(float_reg)),
        jump: StmtGoto { destination: sp(Ident::new("a")), time: None },
    });
    let e = lower(vec![jump], &mut ctx).err().unwrap();
    assert!(matches!(e[0], Diagnostic::CountNotInt { actual: ScalarType::Float, .. }));
    let interrupt = stmt(StmtBody::InterruptLabel(sp(3)));
    let e = lower(vec![interrupt], &mut ctx).err().unwrap();
    assert!(matches!(
        e[0],
        Diagnostic::IntrinsicUnsupported { kind: IntrinsicInstrKind::InterruptLabel, .. }
    ));
}

#[test]
fn labels_stand_for_offsets() {
    let a = || sp(Ident::new("a"));
    let jump = |args: Vec<InstrArg>| LowLevelStmt::Instr(Instr { time: 5, opcode: 1, args });
    let code = vec![
        jump(vec![InstrArg::Label(a()), InstrArg::TimeOf(a())]),
        LowLevelStmt::Label(a()),
        LowLevelStmt::Instr(Instr { time: 9, opcode: 0, args: vec![] }),
    ];
    let out = encode_labels(code, &FORMAT, 0).ok().unwrap();
    match &out[0] {
        LowLevelStmt::Instr(instr) => {
            assert_eq!(instr.args[0].expect_raw().bits, 16);
            assert_eq!(instr.args[1].expect_raw().bits, 9);
        },
        _ => panic!("expected an instruction"),
    }
}

#[test]
fn there_may_be_no_registers() {
    let mut vars = Variables::new();
    let t = vars.declare_temporary(Some(ScalarType::Int));
    let cause = Span::from(3..5);
    let code = vec![LowLevelStmt::RegAlloc { var: t, cause }, LowLevelStmt::RegFree { var: t }];
    match assign_registers(code, &FORMAT, &vars) {
        Err(Diagnostic::OutOfRegisters { cause: c, ty, usage }) => {
            assert_eq!(c, cause);
            assert_eq!(ty, ScalarType::Int);
            assert!(usage.held.is_empty());
        },
        _ => panic!("expected an error"),
    }
    let code = vec![LowLevelStmt::Instr(Instr {
        time: 0,
        opcode: 0,
        args: vec![InstrArg::Local(VarId(4))],
    })];
    match assign_registers(code, &FORMAT, &vars) {
        Err(Diagnostic::LocalWithoutRegister { var }) => assert_eq!(var, VarId(4)),
        _ => panic!("expected an error"),
    }
}

#[test]
fn used_registers() {
    let code = vec![LowLevelStmt::Instr(Instr {
        time: 0,
        opcode: 0,
        args: vec![
            InstrArg::Raw(RawArg::from_reg(12, ScalarType::Int)),
            InstrArg::Raw(RawArg::from(13i32)),
        ],
    })];
    assert_eq!(get_used_regs(&code), vec![12]);
}

#[test]
fn raw_arguments() {
    assert_eq!(RawArg::from(-1i32), RawArg { bits: 0xffff_ffff, is_var: false });
    assert_eq!(RawArg::from(7u32).bits, 7);
    let one = F32::from_i32(1);
    assert_eq!(RawArg::from(one).bits, 1.0f32.to_bits());
    assert_eq!(
        RawArg::from_reg(10, ScalarType::Float),
        RawArg { bits: 10.0f32.to_bits(), is_var: true }
    );
    let arg = InstrArg::Raw(RawArg::from(-5i32));
    assert_eq!(arg.expect_immediate_int(), -5);
    let arg = InstrArg::Raw(RawArg::from(one));
    assert_eq!(arg.expect_immediate_float(), one);
}

#[test]
fn parameter_masks() {
    let instr = |args: Vec<InstrArg>| Instr { time: 0, opcode: 0, args };
    let var = || InstrArg::Raw(RawArg::from_reg(1, ScalarType::Int));
    let lit = || InstrArg::Raw(RawArg::from(1i32));
    assert_eq!(instr(vec![lit(), var(), lit(), var()]).compute_param_mask().ok(), Some(0b1010));
    assert_eq!(instr(vec![]).compute_param_mask().ok(), Some(0));
    let many: Vec<InstrArg> = (0..17).map(|_| lit()).collect();
    assert!(instr(many).compute_param_mask().is_err());
}

#[test]
fn intrinsics_of_later_pairs_win() {
    let kind = IntrinsicInstrKind::TransOp(TransOpKind::Sin);
    let table = IntrinsicInstrs::from_pairs(vec![(kind, 3), (kind, 5)]);
    assert_eq!(table.get_opcode(kind, Span::default()).ok(), Some(5));
    assert_eq!(table.get_intrinsic(5), Some(kind));
    assert_eq!(table.get_intrinsic(3), None);
}

#[test]
fn raised_instructions_are_lowered_back() {
    let mut ctx = TypeSystem::new();
    let table = intrinsics();
    let instrs = [
        (10u16, vec![RawArg::from_reg(1, ScalarType::Int), RawArg::from(5i32)]),
        (
            34,
            vec![
                RawArg::from_reg(1, ScalarType::Int),
                RawArg::from_reg(2, ScalarType::Int),
                RawArg::from(3i32),
            ],
        ),
        (
            35,
            vec![
                RawArg::from_reg(1, ScalarType::Float),
                RawArg::from_reg(2, ScalarType::Float),
                RawArg::from(F32::from_i32(3)),
            ],
        ),
    ];
    for (opcode, raws) in instrs {
        let args: Vec<InstrArg> = raws.iter().map(|r| InstrArg::Raw(*r)).collect();
        let instr = Instr { time: 7, opcode, args };
        let body = raise_instr(&FORMAT, &instr, &ctx.regs_and_instrs, &table).unwrap();
        let code = lower(vec![stmt(body)], &mut ctx).unwrap();
        assert_eq!(code.len(), 1);
        match &code[0] {
            LowLevelStmt::Instr(back) => {
                assert_eq!(back.opcode, opcode);
                let back: Vec<RawArg> = back.args.iter().map(|a| a.expect_raw()).collect();
                assert_eq!(back, raws);
            },
            _ => panic!("expected an instruction"),
        }
    }
}

/// Runs code that adds, subtracts and multiplies integers in registers and temporaries.
fn run(code: &[LowLevelStmt], start: &[(u32, i32)]) -> Vec<(String, i32)> {
    let mut mem: Vec<(String, i32)> =
        start.iter().map(|(r, v)| (format!("r{}", r), *v)).collect();
    for stmt in text(code) {
        let open = match stmt.find('(') {
            Some(open) => open,
            None => continue,
        };
        let opcode: i32 = stmt[..open].parse().unwrap();
        let args: Vec<&str> = stmt[open + 1..stmt.len() - 1].split(',').collect();
        let value = |arg: &str| match arg.parse::<i32>() {
            Ok(n) => n,
            Err(_) => mem.iter().find(|(name, _)| name == arg).unwrap().1,
        };
        let result = match opcode {
            10 => value(args[1]),
            12 => value(args[0]) + value(args[1]),
            14 => value(args[0]) - value(args[1]),
            30 => value(args[1]) + value(args[2]),
            32 => value(args[1]) - value(args[2]),
            34 => value(args[1]) * value(args[2]),
            _ => unreachable!(),
        };
        mem.retain(|(name, _)| name != args[0]);
        mem.push((args[0].to_string(), result));
    }
    mem.retain(|(name, _)| name.starts_with('r'));
    mem.sort();
    mem
}

#[test]
fn lowered_code_computes_what_is_written() {
    let sum = |a: i32, b: i32| binop(reg_expr(a), BinopKind::Add, reg_expr(b));
    let start = [(1, 10), (2, 20), (3, 30)];
    let expected = |a: i32| {
        vec![("r1".to_string(), a), ("r2".to_string(), 20), ("r3".to_string(), 30)]
    };

    // A = (B + C) * (A - (B + A));
    let value = binop(
        sum(2, 3),
        BinopKind::Mul,
        binop(reg_expr(1), BinopKind::Sub, sum(2, 1)),
    );
    let mut ctx = TypeSystem::new();
    let code = lower(vec![assign(1, AssignOpKind::Assign, value)], &mut ctx).unwrap();
    assert_eq!(run(&code, &start), expected(50 * (10 - 30)));

    // A = (A + B) * (A + C);
    let value = binop(sum(1, 2), BinopKind::Mul, sum(1, 3));
    let mut ctx = TypeSystem::new();
    let code = lower(vec![assign(1, AssignOpKind::Assign, value)], &mut ctx).unwrap();
    assert_eq!(run(&code, &start), expected(30 * 40));

    // A -= (A + B) - C;
    let value = binop(sum(1, 2), BinopKind::Sub, reg_expr(3));
    let mut ctx = TypeSystem::new();
    let code = lower(vec![assign(1, AssignOpKind::Sub, value)], &mut ctx).unwrap();
    assert_eq!(run(&code, &start), expected(10 - (30 - 30)));
}

#[test]
fn temporaries_get_registers() {
    let mut vars = Variables::new();
    let a = vars.declare_temporary(Some(ScalarType::Int));
    let b = vars.declare_temporary(Some(ScalarType::Int));
    let x = vars.declare_temporary(Some(ScalarType::Float));
    let alloc = |var: VarId| LowLevelStmt::RegAlloc { var, cause: Span::from(1..2) };
    let free = |var: VarId| LowLevelStmt::RegFree { var };
    let ins = |args: Vec<InstrArg>| LowLevelStmt::Instr(Instr { time: 7, opcode: 5, args });
    let local = |var: VarId| InstrArg::Local(var);
    let code = |first: InstrArg| {
        vec![
            alloc(a),
            alloc(x),
            ins(vec![first, local(a), local(x)]),
            alloc(b),
            ins(vec![local(a), local(b)]),
            free(a),
            ins(vec![local(b)]),
            free(x),
            free(b),
        ]
    };
    let int = |n: i32| InstrArg::Raw(RawArg::from_reg(n, ScalarType::Int));
    let assigned = assign_registers_from(&code(int(3)), &vec![10, 11], &vec![20], &vars).ok().unwrap();
    let expected = [
        ins(vec![int(3), int(10), InstrArg::Raw(RawArg::from_reg(20, ScalarType::Float))]),
        ins(vec![int(10), int(11)]),
        ins(vec![int(11)]),
    ];
    let found: Vec<&LowLevelStmt> =
        assigned.iter().filter(|s| matches!(s, LowLevelStmt::Instr(_))).collect();
    assert_eq!(found, expected.iter().collect::<Vec<_>>());

    // the script names one of the two registers itself
    match assign_registers_from(&code(int(10)), &vec![10, 11], &vec![20], &vars) {
        Err(Diagnostic::OutOfRegisters { ty, usage, .. }) => {
            assert_eq!(ty, ScalarType::Int);
            assert_eq!(usage.held.len(), 1);
            assert_eq!(usage.unavailable, vec![10]);
        },
        _ => panic!("expected an error"),
    }
}
