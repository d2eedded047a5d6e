use truth::ast::{AssignOpKind, BinOpKind, UnOpKind};
use truth::core_mapfiles::core_signatures;
use truth::game::Game;
use truth::llir::intrinsic::{
    AbiErrorKind, ImmediateInt, InputOperandType, IntrinsicInstrAbiProps,
    IntrinsicInstrAbiPropsKind, IntrinsicInstrKind, IntrinsicInstrs, IntrinsicPair, JumpArgOrder,
    JumpArgOrderKind, OutOperandType, OutOperandTypeKind, UnrepresentablePadding,
};
use truth::llir::{AbiParseError, AbiTable, ArgEncoding, InstrAbi};
use truth::pos::{BytePos, Span, Spanned};
use truth::value::ScalarType;

fn span(start: u32, end: u32) -> Span {
    Span::new(Some(1), BytePos(start), BytePos(end))
}

fn abis(entries: &[(u16, &str)]) -> AbiTable {
    let mut out = Vec::new();
    for (i, (opcode, text)) in entries.iter().enumerate() {
        let value = InstrAbi::parse(text).unwrap();
        let start = 100 + 10 * i as u32;
        out.push((*opcode, Spanned { span: span(start, start + 3), value }));
    }
    AbiTable { entries: out }
}

fn pair(kind: IntrinsicInstrKind, opcode: u16, start: u32) -> IntrinsicPair {
    (Spanned { span: span(start, start + 5), value: kind }, opcode)
}

fn props(kind: IntrinsicInstrKind, text: &str) -> Result<IntrinsicInstrAbiProps, AbiErrorKind> {
    IntrinsicInstrAbiProps::from_abi(kind, &InstrAbi::parse(text).unwrap())
}

#[test]
fn fix_from_instr_format() {
    // intrinsics of mapfiles are added to those of the format, and win over them
    let builtin = vec![(IntrinsicInstrKind::Jmp, 4), (IntrinsicInstrKind::InterruptLabel, 31)];
    let count_jmp = IntrinsicInstrKind::CountJmp;
    let user = vec![pair(count_jmp, 99, 0), pair(IntrinsicInstrKind::Jmp, 7, 10)];
    let table = abis(&[(4, "ot_"), (7, "ot"), (31, "S__"), (99, "Sto")]);
    let instrs = IntrinsicInstrs::from_format_and_mapfiles(&builtin, &user, &table).unwrap();
    assert_eq!(instrs.get_opcode_opt(count_jmp), Some(99));
    assert_eq!(instrs.get_opcode_opt(IntrinsicInstrKind::Jmp), Some(7));
    assert_eq!(instrs.get_opcode_opt(IntrinsicInstrKind::InterruptLabel), Some(31));
    assert!(instrs.get_intrinsic_and_props(4).is_none());
    let (kind, props) = instrs.get_intrinsic_and_props(99).unwrap();
    assert_eq!(kind, count_jmp);
    assert_eq!(
        *props,
        IntrinsicInstrAbiPropsKind::CountJmp {
            arg: OutOperandType { index: 0, kind: OutOperandTypeKind::Natural },
            jump: JumpArgOrder { index: 1, kind: JumpArgOrderKind::TimeLoc },
        }
    );
}

#[test]
fn fix_null_span() {
    // errors point at the intrinsic and at the signature
    let user = vec![pair(IntrinsicInstrKind::Jmp, 4, 20)];
    let table = abis(&[(3, "S"), (4, "So")]);
    let errors = IntrinsicInstrs::from_format_and_mapfiles(&vec![], &user, &table).unwrap_err();
    assert_eq!(errors.len(), 1);
    assert_eq!(errors[0].intrinsic.span, span(20, 25));
    assert_eq!(errors[0].intrinsic.value, IntrinsicInstrKind::Jmp);
    assert_eq!(errors[0].abi, Some(span(110, 113)));
    assert_ne!(errors[0].abi, Some(Span::default()));
}

#[test]
fn abi_letters() {
    let abi = InstrAbi::parse("S_Cfot").unwrap();
    assert_eq!(
        abi.encodings,
        vec![
            ArgEncoding::Dword,
            ArgEncoding::Padding,
            ArgEncoding::Color,
            ArgEncoding::Float,
            ArgEncoding::JumpOffset,
            ArgEncoding::JumpTime,
        ]
    );
    assert_eq!(InstrAbi::parse("Sx").unwrap_err(), AbiParseError::BadChar { c: 'x' });
    assert_eq!(ArgEncoding::Dword.descr(), "dword integer");
}

#[test]
fn abi_multiple_o() {
    assert_eq!(InstrAbi::parse("oot").unwrap_err(), AbiParseError::MultipleOffsets);
    assert_eq!(InstrAbi::parse("ott").unwrap_err(), AbiParseError::MultipleTimes);
}

#[test]
fn intrinsic_jmp_needs_offset() {
    assert_eq!(InstrAbi::parse("St").unwrap_err(), AbiParseError::TimeWithoutOffset);
}

#[test]
fn intrinsic_jmp_mislabeled_time() {
    let e = props(IntrinsicInstrKind::Jmp, "So").unwrap_err();
    assert_eq!(e, AbiErrorKind::UnexpectedArg { encoding: ArgEncoding::Dword, number: 1 });
    assert!(e.message().contains("unexpected dword"));
    assert_eq!(e.message(), "unexpected dword integer arg at index 1");
}

#[test]
fn intrinsic_jmp_non_consecutive_offset_time() {
    let e = props(IntrinsicInstrKind::CountJmp, "tSo").unwrap_err();
    assert_eq!(e, AbiErrorKind::NotConsecutive);
    assert!(e.message().contains("must be consecutive"));
}

#[test]
fn intrinsic_op_output_arg_wrong_type() {
    let kind = IntrinsicInstrKind::AssignOp(AssignOpKind::Assign, ScalarType::Int);
    let e = props(kind, "fS").unwrap_err();
    assert_eq!(e, AbiErrorKind::BadEncoding { encoding: ArgEncoding::Float });
    assert!(e.message().contains("unexpected encoding"));
}

#[test]
fn intrinsic_op_input_arg_wrong_type() {
    let kind = IntrinsicInstrKind::AssignOp(AssignOpKind::Assign, ScalarType::Int);
    let e = props(kind, "Sf").unwrap_err();
    assert_eq!(e, AbiErrorKind::BadEncoding { encoding: ArgEncoding::Float });
    assert!(e.message().contains("unexpected encoding"));
}

#[test]
fn intrinsic_has_extra_arg() {
    let kind = IntrinsicInstrKind::AssignOp(AssignOpKind::Assign, ScalarType::Int);
    let e = props(kind, "SSS").unwrap_err();
    assert_eq!(e, AbiErrorKind::UnexpectedArg { encoding: ArgEncoding::Dword, number: 3 });
    assert!(e.message().contains("unexpected"));
}

#[test]
fn intrinsic_has_insufficient_args() {
    let kind = IntrinsicInstrKind::AssignOp(AssignOpKind::Assign, ScalarType::Int);
    let e = props(kind, "S").unwrap_err();
    assert_eq!(e, AbiErrorKind::NotEnoughArgs);
    assert!(e.message().contains("not enough arguments"));
}

#[test]
fn intrinsic_with_mismatched_signature_in_core_map() {
    let e = props(IntrinsicInstrKind::Jmp, "S").unwrap_err();
    assert_eq!(e, AbiErrorKind::MissingOffset);
    assert!(e.message().contains("missing jump offset"));
}

#[test]
fn intrinsic_without_signature() {
    let user = vec![pair(IntrinsicInstrKind::Jmp, 999, 0)];
    let table = abis(&[]);
    let errors = IntrinsicInstrs::from_format_and_mapfiles(&vec![], &user, &table).unwrap_err();
    assert_eq!(errors.len(), 1);
    assert_eq!(errors[0].kind, AbiErrorKind::NoSignature);
    assert_eq!(errors[0].abi, None);
    assert!(errors[0].kind.message().contains("has no signature"));
}

#[test]
fn intrinsic_for_op_that_no_game_has() {
    let shift = IntrinsicInstrKind::Binop(BinOpKind::ShiftRightUnsigned, ScalarType::Int);
    let not = IntrinsicInstrKind::Unop(UnOpKind::BitNot, ScalarType::Int);
    let user = vec![pair(shift, 999, 0), pair(not, 998, 10)];
    let table = abis(&[(999, "SSS"), (998, "SS")]);
    let instrs = IntrinsicInstrs::from_format_and_mapfiles(&vec![], &user, &table).unwrap();
    assert_eq!(instrs.get_opcode_opt(shift), Some(999));
    assert_eq!(instrs.get_opcode_opt(not), Some(998));
}

#[test]
fn intrinsic_with_novel_abi() {
    let r = props(IntrinsicInstrKind::CountJmp, "Sto").unwrap();
    assert_eq!(r.num_instr_args, 3);
    assert_eq!(
        r.kind,
        IntrinsicInstrAbiPropsKind::CountJmp {
            arg: OutOperandType { index: 0, kind: OutOperandTypeKind::Natural },
            jump: JumpArgOrder { index: 1, kind: JumpArgOrderKind::TimeLoc },
        }
    );
}

#[test]
fn intrinsic_float_op_like_eosd_ecl() {
    let kind = IntrinsicInstrKind::Binop(BinOpKind::Add, ScalarType::Float);
    let r = props(kind, "Sff").unwrap();
    assert_eq!(
        r.kind,
        IntrinsicInstrAbiPropsKind::Binop {
            dest: OutOperandType { index: 0, kind: OutOperandTypeKind::FloatAsInt },
            args: (InputOperandType { index: 1 }, InputOperandType { index: 2 }),
        }
    );
}

#[test]
fn padding_is_remembered() {
    let r = props(IntrinsicInstrKind::InterruptLabel, "S__").unwrap();
    assert_eq!(
        r.kind,
        IntrinsicInstrAbiPropsKind::InterruptLabel {
            padding: UnrepresentablePadding { index: 1, count: 2 },
            label: ImmediateInt { index: 0 },
        }
    );
}

#[test]
fn last_signature_counts() {
    // prefer the most recent signature
    let table = abis(&[(99, "S"), (99, "SS")]);
    assert_eq!(table.get(99).unwrap().value.encodings.len(), 2);
    assert!(table.get(98).is_none());
}

#[test]
fn unsupported_feature_tells_where() {
    let instrs = IntrinsicInstrs { entries: vec![] };
    let e = instrs
        .get_opcode_and_abi_props(IntrinsicInstrKind::CountJmp, span(3, 9), "decrement jump")
        .unwrap_err();
    assert_eq!(e.span, span(3, 9));
    assert_eq!(e.label, "decrement jump not supported in this game");
}

#[test]
fn opcode_and_intrinsic_agree() {
    let builtin = vec![(IntrinsicInstrKind::Jmp, 4)];
    let table = abis(&[(4, "ot_")]);
    let instrs = IntrinsicInstrs::from_format_and_mapfiles(&builtin, &vec![], &table).unwrap();
    let (kind, _) = instrs.get_intrinsic_and_props(4).unwrap();
    let (opcode, props) = instrs.get_opcode_and_abi_props(kind, span(0, 0), "jump").unwrap();
    assert_eq!(opcode, 4);
    assert_eq!(props.num_instr_args, 3);
}

#[test]
fn binary_ops_are_numbered() {
    let mut pairs = vec![];
    IntrinsicInstrKind::register_binary_ops(&mut pairs, 6);
    assert_eq!(pairs[0], (IntrinsicInstrKind::Binop(BinOpKind::Add, ScalarType::Int), 6));
    assert_eq!(pairs[1], (IntrinsicInstrKind::Binop(BinOpKind::Add, ScalarType::Float), 7));
    assert_eq!(pairs.len(), 10);
}

#[test]
fn core_signatures_are_valid() {
    for game in [Game::Th06, Game::Th07, Game::Th09, Game::Th095, Game::Th18] {
        for ins in core_signatures(game).ins {
            let abi = InstrAbi::parse(ins.signature).unwrap();
            if let Some(kind) = ins.kind {
                assert!(IntrinsicInstrAbiProps::from_abi(kind, &abi).is_ok());
            }
        }
    }
}

#[test]
fn core_signatures_of_games() {
    assert_eq!(core_signatures(Game::Th06).ins.len(), 6);
    assert_eq!(core_signatures(Game::Th08).ins.len(), 35);
    let late = core_signatures(Game::Th143).ins;
    assert_eq!(late.len(), 22);
    assert_eq!(late[1].signature, "ot");
    assert_eq!(late[1].kind, Some(IntrinsicInstrKind::Jmp));
    assert_eq!((late[18].game, late[18].opcode, late[18].signature), (Game::Th14, 14, "SSS"));
}

#[test]
fn every_argument_belongs_to_one_piece() {
    let kind = IntrinsicInstrKind::CondJmp(BinOpKind::Lt, ScalarType::Int);
    let r = props(kind, "SotS").unwrap();
    assert_eq!(r.num_instr_args, 4);
    assert_eq!(
        r.kind,
        IntrinsicInstrAbiPropsKind::CondJmp {
            args: (InputOperandType { index: 0 }, InputOperandType { index: 3 }),
            jump: JumpArgOrder { index: 1, kind: JumpArgOrderKind::LocTime },
        }
    );
    let r = props(IntrinsicInstrKind::InterruptLabel, "S__").unwrap();
    assert_eq!(r.num_instr_args, 3);
    assert_eq!(
        r.kind,
        IntrinsicInstrAbiPropsKind::InterruptLabel {
            padding: UnrepresentablePadding { index: 1, count: 2 },
            label: ImmediateInt { index: 0 },
        }
    );
    // nothing may be left over
    assert!(matches!(props(kind, "SotSS"), Err(AbiErrorKind::UnexpectedArg { number: 5, .. })));
}
