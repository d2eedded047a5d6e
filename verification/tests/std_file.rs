use indexmap::IndexMap;
use truth::binary_io::{BinReader, InstrPlace, ReadError, ReadErrorKind, Warning};
use truth::error::Diagnostic;
use truth::float32::F32;
use truth::game::Game;
use truth::ident::Ident;
use truth::instr::{Instr, InstrArg, RawArg};
use truth::instr::format::{read_dword_args_upto_size, read_instrs, InstrFormat};
use truth::instr::raise::{RaiseErrorKind, RaisedOp};
use truth::meta::{FromMetaError, MetaType};
use truth::passes::const_simplify::FloatOp;
use truth::pos::{sp, Sp, Span};
use truth::script::{
    BinopKind, Block, Expr, Fields, Item, Meta, MetaKeyword, Script, Stmt, StmtBody, StmtGoto,
    StmtLabel,
};
use truth::std_file::compile::CompileFailure;
use truth::std_file::format::{InstrFormat10, WriteError};
use truth::std_file::{Instance, Object, Quad, QuadExtra, Std06Bgm, StdExtra, StdFile};
use truth::type_system::{ArgEncoding, Signature, TypeSystem};

fn f(x: f32) -> F32 {
    F32::from_bits(x.to_bits())
}

fn f3(x: f32, y: f32, z: f32) -> [F32; 3] {
    [f(x), f(y), f(z)]
}

fn raw(bits: u32) -> InstrArg {
    InstrArg::Raw(RawArg { bits, is_var: false })
}

fn instr(time: i32, opcode: u16, args: &[u32]) -> Instr {
    Instr { time, opcode, args: args.iter().map(|x| raw(*x)).collect() }
}

fn bgm(name: &str) -> Std06Bgm {
    Std06Bgm { path: format!("bgm/{}.mid", name).into_bytes(), name: name.as_bytes().to_vec() }
}

fn object() -> Object {
    Object {
        unknown: 3,
        pos: f3(1.0, 2.0, 3.0),
        size: f3(4.0, 5.0, 6.0),
        quads: vec![
            Quad {
                anm_script: 7,
                extra: QuadExtra::Rect { pos: f3(0.5, 0.25, 0.0), size: [f(8.0), f(9.0)] },
            },
            Quad {
                anm_script: 8,
                extra: QuadExtra::Strip {
                    start: f3(1.0, 0.0, 0.0),
                    end: f3(0.0, 1.0, 0.0),
                    width: f(2.5),
                },
            },
        ],
    }
}

fn instance(name: &str) -> Instance {
    Instance { object: sp(Ident::new(name)), unknown: 256, pos: f3(-1.0, 0.0, 1.0) }
}

fn early_file(script: Vec<Instr>) -> StdFile {
    let mut objects = IndexMap::new();
    objects.insert(String::from("object0"), object());
    StdFile {
        unknown: 5,
        objects,
        instances: vec![instance("object0"), instance("object0")],
        script,
        extra: StdExtra::Th06 {
            stage_name: b"dream".to_vec(),
            bgm: [bgm("a"), bgm("b"), bgm("c"), bgm("d")],
        },
    }
}

fn late_file(script: Vec<Instr>) -> StdFile {
    StdFile {
        unknown: 0,
        objects: IndexMap::new(),
        instances: vec![],
        script,
        extra: StdExtra::Th10 { anm_path: b"stage01.anm".to_vec() },
    }
}

fn bytes_of(file: &StdFile, game: Game) -> Vec<u8> {
    let mut out = vec![];
    file.write_to_stream(&mut out, game, &mut vec![]).unwrap();
    out
}

fn read_file(game: Game, bytes: &[u8]) -> Result<StdFile, ReadError> {
    StdFile::read_from_bytes(game, bytes, &mut vec![])
}

fn context(signatures: &[(u16, &[ArgEncoding])]) -> TypeSystem {
    let mut ctx = TypeSystem::new();
    for (opcode, encodings) in signatures {
        ctx.regs_and_instrs
            .opcode_signatures
            .insert(*opcode, Signature { encodings: encodings.to_vec() });
    }
    ctx
}

const FFF: &[ArgEncoding] = &[ArgEncoding::Float, ArgEncoding::Float, ArgEncoding::Float];
const C_FF: &[ArgEncoding] = &[ArgEncoding::Color, ArgEncoding::Float, ArgEncoding::Float];
const S_PAD: &[ArgEncoding] = &[ArgEncoding::Dword, ArgEncoding::Padding, ArgEncoding::Padding];

// -----------------------------------------------------------------------------

#[test]
fn late_file_has_exact_bytes() {
    let file = late_file(vec![instr(30, 2, &[0x3f80_0000, 0, 7])]);
    let bytes = bytes_of(&file, Game::Th12);
    let mut expected: Vec<u8> = vec![];
    expected.extend([0, 0, 0, 0]); // numbers of objects and quads
    let instances_offset = 16 + 128;
    expected.extend((instances_offset as u32).to_le_bytes());
    expected.extend((instances_offset as u32 + 16).to_le_bytes());
    expected.extend(0u32.to_le_bytes());
    let mut path = b"stage01.anm".to_vec();
    path.resize(128, 0);
    expected.extend(path);
    expected.extend([0xff; 16]); // end of instances
    expected.extend(30i32.to_le_bytes());
    expected.extend(2u16.to_le_bytes());
    expected.extend(20u16.to_le_bytes());
    expected.extend(0x3f80_0000u32.to_le_bytes());
    expected.extend(0u32.to_le_bytes());
    expected.extend(7u32.to_le_bytes());
    expected.extend([0xff; 20]);
    assert_eq!(bytes, expected);
}

#[test]
fn early_file_is_read_back() {
    let file = early_file(vec![instr(0, 0, &[1, 2, 3]), instr(10, 4, &[0, 10, 0])]);
    let bytes = bytes_of(&file, Game::Th08);
    let read = read_file(Game::Th08, &bytes).unwrap();
    assert_eq!(read.unknown, 5);
    assert_eq!(read.objects.len(), 1);
    let (name, object) = read.objects.get_index(0).unwrap();
    assert_eq!(name, "object0");
    assert_eq!(object.unknown, 3);
    assert_eq!(object.quads.len(), 2);
    assert_eq!(object.quads[0].anm_script, 7);
    assert!(matches!(object.quads[1].extra, QuadExtra::Strip { .. }));
    assert_eq!(read.instances.len(), 2);
    assert_eq!(read.instances[1].unknown, 256);
    assert!(read.instances[1].object.value.is("object0"));
    assert_eq!(read.script.len(), 2);
    assert_eq!(read.script[1].time, 10);
    assert_eq!(bytes_of(&read, Game::Th08), bytes);
}

#[test]
fn writing_appends() {
    let file = late_file(vec![]);
    let mut out = vec![1, 2, 3];
    file.write_to_stream(&mut out, Game::Th12, &mut vec![]).unwrap();
    assert_eq!(&out[..3], &[1, 2, 3]);
    assert_eq!(&out[3..], &bytes_of(&file, Game::Th12)[..]);
}

#[test]
fn strings_are_at_most_127_bytes() {
    let mut file = late_file(vec![]);
    file.extra = StdExtra::Th10 { anm_path: vec![b'x'; 127] };
    let bytes = bytes_of(&file, Game::Th12);
    let read = read_file(Game::Th12, &bytes).unwrap();
    match read.extra {
        StdExtra::Th10 { anm_path } => assert_eq!(anm_path, vec![b'x'; 127]),
        StdExtra::Th06 { .. } => panic!("wrong header"),
    }
    file.extra = StdExtra::Th10 { anm_path: vec![b'x'; 128] };
    let mut out = vec![9];
    let e = file.write_to_stream(&mut out, Game::Th12, &mut vec![]).unwrap_err();
    assert!(matches!(e, WriteError::StringTooLong { len: 128 }));
    // the numbers at the start are there, and that is all
    assert_eq!(out, [vec![9], vec![0; 16]].concat());
}

#[test]
fn instances_need_their_object() {
    let mut file = early_file(vec![]);
    let mut whole = bytes_of(&file, Game::Th08);
    file.instances.push(instance("object7"));
    let mut out = vec![];
    match file.write_to_stream(&mut out, Game::Th08, &mut vec![]) {
        Err(WriteError::NoSuchObject { name }) => assert!(name.is("object7")),
        _ => panic!("expected an error"),
    }
    // everything is there up to the two instances before it, but for the offsets
    let instances = u32::from_le_bytes([whole[4], whole[5], whole[6], whole[7]]) as usize;
    whole.truncate(instances + 2 * 16);
    whole[4..12].copy_from_slice(&[0; 8]);
    let table = 16 + 9 * 128;
    whole[table..table + 4].copy_from_slice(&[0; 4]);
    assert_eq!(out, whole);
}

#[test]
fn strings_before_a_long_one_are_written() {
    let mut file = early_file(vec![]);
    let whole = bytes_of(&file, Game::Th08);
    if let StdExtra::Th06 { bgm, .. } = &mut file.extra {
        bgm[2].name = vec![b'x'; 200];
    }
    let mut out = vec![];
    let mut warnings = vec![];
    let e = file.write_to_stream(&mut out, Game::Th06, &mut warnings).unwrap_err();
    assert!(matches!(e, WriteError::StringTooLong { len: 200 }));
    // the stage name and two names
    assert_eq!(out.len(), 16 + 3 * 128);
    assert_eq!(&out[16..], &whole[16..16 + 3 * 128]);
    assert_eq!(&out[4..12], &[0; 8]);
    // the strip of the object was not reached
    assert_eq!(warnings, vec![]);
}

#[test]
fn strips_are_warned_of_in_games_without_them() {
    let file = early_file(vec![]);
    for (game, expected) in [
        (Game::Th06, vec![Warning::StripQuad]),
        (Game::Th07, vec![Warning::StripQuad]),
        (Game::Th08, vec![]),
        (Game::Th09, vec![]),
    ] {
        let mut warnings = vec![];
        file.write_to_stream(&mut vec![], game, &mut warnings).unwrap();
        assert_eq!(warnings, expected);
    }
    // one for each strip, behind the warnings that are there
    let mut file = early_file(vec![]);
    file.objects.insert(String::from("other"), object());
    let mut warnings = vec![Warning::MissingEndMarker];
    file.write_to_stream(&mut vec![], Game::Th06, &mut warnings).unwrap();
    assert_eq!(
        warnings,
        vec![Warning::MissingEndMarker, Warning::StripQuad, Warning::StripQuad]
    );
}

#[test]
fn objects_out_of_order_are_warned_of() {
    let mut file = early_file(vec![instr(0, 0, &[1, 2, 3])]);
    file.objects.insert(String::from("object1"), object());
    let mut bytes = bytes_of(&file, Game::Th08);
    let mut warnings = vec![];
    StdFile::read_from_bytes(Game::Th08, &bytes, &mut warnings).unwrap();
    assert_eq!(warnings, vec![]);
    let table = 16 + 9 * 128 + 4;
    let second = u32::from_le_bytes([
        bytes[table],
        bytes[table + 1],
        bytes[table + 2],
        bytes[table + 3],
    ]) as usize;
    bytes[second] = 9;
    let read = StdFile::read_from_bytes(Game::Th08, &bytes, &mut warnings).unwrap();
    assert_eq!(read.objects.len(), 2);
    let told = Warning::NonSequentialId { expected: 1, id: 9 };
    assert_eq!(warnings, vec![told]);
    // it is told of a file that cannot be read, too
    let mut warnings = vec![];
    let cut = bytes.len() - 30;
    assert!(StdFile::read_from_bytes(Game::Th08, &bytes[..cut], &mut warnings).is_err());
    assert_eq!(warnings, vec![told]);
}

#[test]
fn early_instructions_are_padded() {
    let padded = bytes_of(&early_file(vec![instr(0, 31, &[2])]), Game::Th08);
    let full = bytes_of(&early_file(vec![instr(0, 31, &[2, 0, 0])]), Game::Th08);
    assert_eq!(padded, full);
}

#[test]
fn damaged_files_are_refused() {
    let bytes = bytes_of(&early_file(vec![instr(0, 0, &[1, 2, 3])]), Game::Th08);
    let e = read_file(Game::Th08, &bytes[..10]).err().unwrap();
    assert_eq!(e.kind, ReadErrorKind::UnexpectedEof);
    assert_eq!(e.instr, None);
    // the script ends too soon
    let e = read_file(Game::Th08, &bytes[..bytes.len() - 30]).err().unwrap();
    assert_eq!(e.kind, ReadErrorKind::UnexpectedEof);
    assert_eq!(e.instr, Some(InstrPlace { index: 0, offset: 0 }));
    // the script is behind the end
    let mut far = bytes.clone();
    far[8..12].copy_from_slice(&0x10_0000u32.to_le_bytes());
    let e = read_file(Game::Th08, &far).err().unwrap();
    assert_eq!(e.kind, ReadErrorKind::BadOffset { offset: 0x10_0000 });
    // an instruction of another size
    let script = u32::from_le_bytes([bytes[8], bytes[9], bytes[10], bytes[11]]) as usize;
    let mut sized = bytes.clone();
    sized[script + 6] = 16;
    let e = read_file(Game::Th08, &sized).err().unwrap();
    assert_eq!(e.kind, ReadErrorKind::BadInstrSize { size: 16 });
    // an instance of an object that is not there
    let instances = u32::from_le_bytes([bytes[4], bytes[5], bytes[6], bytes[7]]) as usize;
    let mut index = bytes.clone();
    index[instances] = 4;
    let e = read_file(Game::Th08, &index).err().unwrap();
    assert_eq!(e.kind, ReadErrorKind::ObjectIndex { index: 4, num_objects: 1 });
}

#[test]
fn late_instructions_have_whole_dwords() {
    let bytes = bytes_of(&late_file(vec![instr(0, 2, &[1])]), Game::Th12);
    let script = u32::from_le_bytes([bytes[8], bytes[9], bytes[10], bytes[11]]) as usize;
    let mut odd = bytes.clone();
    odd[script + 6] = 11;
    let e = read_file(Game::Th12, &odd).err().unwrap();
    assert_eq!(e.kind, ReadErrorKind::SizeNotDivisible { size: 3 });
    let mut small = bytes;
    small[script + 6] = 7;
    let e = read_file(Game::Th12, &small).err().unwrap();
    assert_eq!(e.kind, ReadErrorKind::BadInstrSize { size: 7 });
}

// -----------------------------------------------------------------------------

fn code_of(script: &Script) -> &Vec<Sp<Stmt>> {
    match &script.items[1].value {
        Item::AnmScript { code, .. } => &code.0,
        _ => panic!("expected code"),
    }
}

#[test]
fn decompiled_statements() {
    let ctx = context(&[(0, FFF), (1, C_FF)]);
    let file = early_file(vec![
        instr(0, 0, &[0x3f80_0000, 0, 0]),
        instr(0, 1, &[0xff80_40c0, 0, 0]),
        instr(5, 31, &[2, 0, 0]),
        instr(9, 4, &[1, 30, 0]),
    ]);
    let script = file.decompile_to_ast(Game::Th08, &ctx).unwrap();
    let code = code_of(&script);
    assert_eq!(code.len(), 4);
    match &code[0].value.body.value {
        StmtBody::Expr(e) => match &e.value {
            Expr::Call { func, args } => {
                assert!(func.value.is("ins_0"));
                assert!(matches!(args[0].value, Expr::LitFloat { value } if value == f(1.0)));
                assert_eq!(args.len(), 3);
            },
            _ => panic!("expected a call"),
        },
        _ => panic!("expected an expression"),
    }
    match &code[1].value.body.value {
        StmtBody::Expr(e) => match &e.value {
            Expr::Call { args, .. } => {
                assert!(matches!(args[0].value, Expr::LitInt { hex: true, .. }));
            },
            _ => panic!("expected a call"),
        },
        _ => panic!("expected an expression"),
    }
    assert_eq!(code[2].value.time, 5);
    assert!(matches!(&code[2].value.body.value, StmtBody::InterruptLabel(n) if n.value == 2));
    match &code[3].value.body.value {
        // jumps hold the number of an instruction, each of which has 20 bytes
        StmtBody::Jump(StmtGoto { destination, time }) => {
            assert!(destination.value.is("label_20"));
            assert_eq!(*time, Some(30));
        },
        _ => panic!("expected a jump"),
    }
    match &code[1].value.labels[0].value {
        StmtLabel::Label(label) => assert!(label.value.is("label_20")),
        _ => panic!("expected a label"),
    }
}

#[test]
fn early_file_is_compiled_back() {
    let mut ctx = context(&[(0, FFF), (1, C_FF), (18, S_PAD)]);
    let file = early_file(vec![
        instr(0, 0, &[0x3f80_0000, 0x8000_0000, 0x7fc0_0001]),
        instr(0, 1, &[0xff80_40c0, 0, 0]),
        instr(5, 31, &[2, 0, 0]),
        instr(7, 18, &[0xffff_fffe, 0, 0]),
        instr(9, 4, &[1, 30, 0]),
    ]);
    let script = file.decompile_to_ast(Game::Th08, &ctx).unwrap();
    let back = StdFile::compile_from_ast(Game::Th08, &script, &mut ctx, vec![]).ok().unwrap();
    assert_eq!(bytes_of(&back, Game::Th08), bytes_of(&file, Game::Th08));
}

#[test]
fn late_file_is_compiled_back() {
    let mut ctx = context(&[(2, FFF)]);
    let file = late_file(vec![
        instr(0, 2, &[1, 2, 3]),
        instr(3, 16, &[5]),
        instr(9, 1, &[20, 3]),
    ]);
    let script = file.decompile_to_ast(Game::Th12, &ctx).unwrap();
    let back = StdFile::compile_from_ast(Game::Th12, &script, &mut ctx, vec![]).ok().unwrap();
    assert_eq!(bytes_of(&back, Game::Th12), bytes_of(&file, Game::Th12));
}

#[test]
fn instructions_that_cannot_be_raised() {
    let ctx = context(&[(0, FFF)]);
    let mismatch = early_file(vec![instr(0, 0, &[1, 2])]);
    let e = mismatch.decompile_to_ast(Game::Th08, &ctx).err().unwrap();
    assert_eq!(e.kind, RaiseErrorKind::SignatureMismatch { actual: 2, expected: 3 });
    assert_eq!(e.op, RaisedOp::Ins(0));
    let padding = early_file(vec![instr(0, 31, &[1, 0, 1])]);
    let e = padding.decompile_to_ast(Game::Th08, &ctx).err().unwrap();
    assert_eq!(e.kind, RaiseErrorKind::PaddingData);
    let short = early_file(vec![instr(0, 4, &[1])]);
    let e = short.decompile_to_ast(Game::Th08, &ctx).err().unwrap();
    assert_eq!(e.kind, RaiseErrorKind::WrongArgCount { expected: 2, actual: 1 });
    let var = early_file(vec![Instr {
        time: 0,
        opcode: 31,
        args: vec![InstrArg::Raw(RawArg { bits: 1, is_var: true })],
    }]);
    let e = var.decompile_to_ast(Game::Th08, &ctx).err().unwrap();
    assert_eq!(e.kind, RaiseErrorKind::ExpectedImmediate);
    let reg = early_file(vec![Instr {
        time: 0,
        opcode: 0,
        args: vec![
            InstrArg::Raw(RawArg { bits: 0x3f00_0000, is_var: true }),
            raw(0),
            raw(0),
        ],
    }]);
    let e = reg.decompile_to_ast(Game::Th08, &ctx).err().unwrap();
    assert_eq!(e.kind, RaiseErrorKind::NonIntegerVar { value: f(0.5) });
    assert_eq!(e.arg, Some(1));
}

// -----------------------------------------------------------------------------

fn stmt(body: StmtBody) -> Sp<Stmt> {
    sp(Stmt { time: 0, labels: vec![], body: sp(body) })
}

fn meta_item(fields: Fields) -> Sp<Item> {
    sp(Item::Meta { keyword: sp(MetaKeyword::Meta), name: None, fields: sp(fields) })
}

fn main_item(code: Vec<Sp<Stmt>>) -> Sp<Item> {
    sp(Item::AnmScript { number: None, name: sp(Ident::new("main")), code: Block(code) })
}

fn late_meta() -> Fields {
    let file = late_file(vec![]);
    let script = file.decompile_to_ast(Game::Th12, &TypeSystem::new()).unwrap();
    for item in script.items {
        if let Item::Meta { fields, .. } = item.value {
            return fields.value;
        }
    }
    panic!("no meta")
}

fn compile(items: Vec<Sp<Item>>, ctx: &mut TypeSystem) -> Result<StdFile, CompileFailure> {
    let script = Script { mapfiles: vec![], items };
    StdFile::compile_from_ast(Game::Th12, &script, ctx, vec![])
}

fn errors_of(r: Result<StdFile, CompileFailure>) -> Vec<truth::error::Error> {
    match r {
        Err(CompileFailure::Errors(e)) => e.errors,
        _ => panic!("expected errors"),
    }
}

#[test]
fn parts_of_a_script() {
    let mut ctx = TypeSystem::new();
    let e = errors_of(compile(vec![main_item(vec![])], &mut ctx));
    assert!(matches!(e[0], Diagnostic::MissingMain));
    let e = errors_of(compile(vec![meta_item(late_meta())], &mut ctx));
    assert!(matches!(e[0], Diagnostic::MissingMeta));
    let e = errors_of(compile(vec![meta_item(late_meta()), meta_item(late_meta())], &mut ctx));
    assert!(matches!(e[0], Diagnostic::DuplicateMeta { .. }));
    let e = errors_of(compile(vec![main_item(vec![]), main_item(vec![])], &mut ctx));
    assert!(matches!(e[0], Diagnostic::DuplicateMain { .. }));
    let other = sp(Item::AnmScript {
        number: None,
        name: sp(Ident::new("other")),
        code: Block(vec![]),
    });
    let e = errors_of(compile(vec![other], &mut ctx));
    assert!(matches!(&e[0], Diagnostic::ScriptNotMain { name } if name.value.is("other")));
    let numbered = sp(Item::AnmScript {
        number: Some(sp(3)),
        name: sp(Ident::new("main")),
        code: Block(vec![]),
    });
    let e = errors_of(compile(vec![numbered], &mut ctx));
    assert!(matches!(e[0], Diagnostic::NumberedScript { .. }));
    let entry = sp(Item::Meta {
        keyword: sp(MetaKeyword::Entry),
        name: None,
        fields: sp(late_meta()),
    });
    let e = errors_of(compile(vec![entry], &mut ctx));
    assert!(matches!(e[0], Diagnostic::UnexpectedMeta { .. }));
    let named = sp(Item::Meta {
        keyword: sp(MetaKeyword::Meta),
        name: Some(sp(Ident::new("x"))),
        fields: sp(late_meta()),
    });
    let e = errors_of(compile(vec![named], &mut ctx));
    assert!(matches!(e[0], Diagnostic::NamedMeta { .. }));
    let files = sp(Item::FileList { files: vec![] });
    let e = errors_of(compile(vec![files], &mut ctx));
    assert!(matches!(e[0], Diagnostic::Unsupported { .. }));
}

#[test]
fn bad_meta_sections() {
    let mut ctx = TypeSystem::new();
    let e = errors_of(compile(vec![meta_item(Fields(vec![])), main_item(vec![])], &mut ctx));
    match &e[0] {
        Diagnostic::BadMeta(FromMetaError::MissingField { field, .. }) => {
            assert!(field.is("unknown"));
        },
        _ => panic!("expected a missing field"),
    }
    let mut fields = late_meta();
    fields.0.push((sp(Ident::new("extra")), sp(Meta::Scalar(sp(Expr::LitInt {
        value: 1,
        hex: false,
    })))));
    let e = errors_of(compile(vec![meta_item(fields), main_item(vec![])], &mut ctx));
    match &e[0] {
        Diagnostic::BadMeta(FromMetaError::UnexpectedField { field }) => {
            assert!(field.value.is("extra"));
        },
        _ => panic!("expected an unexpected field"),
    }
    let mut fields = late_meta();
    fields.0[0].1 = sp(Meta::Scalar(sp(Expr::LitFloat { value: f(1.0) })));
    let e = errors_of(compile(vec![meta_item(fields), main_item(vec![])], &mut ctx));
    assert!(matches!(
        &e[0],
        Diagnostic::BadMeta(FromMetaError::Expected { expected: MetaType::Int, .. })
    ));
}

#[test]
fn float_arithmetic_is_asked_for() {
    let mut ctx = context(&[(2, FFF)]);
    let sum = || {
        sp(Expr::Binop(
            Box::new(sp(Expr::LitFloat { value: f(1.5) })),
            sp(BinopKind::Add),
            Box::new(sp(Expr::LitFloat { value: f(2.0) })),
        ))
    };
    let zero = || sp(Expr::LitFloat { value: f(0.0) });
    let call = stmt(StmtBody::Expr(sp(Expr::Call {
        func: sp(Ident::new("ins_2")),
        args: vec![sum(), zero(), zero()],
    })));
    let script =
        Script { mapfiles: vec![], items: vec![meta_item(late_meta()), main_item(vec![call])] };
    let needed = match StdFile::compile_from_ast(Game::Th12, &script, &mut ctx, vec![]) {
        Err(CompileFailure::NeedFloats(ops)) => ops,
        _ => panic!("expected an operation"),
    };
    assert_eq!(needed, vec![FloatOp { op: BinopKind::Add, a: f(1.5), b: f(2.0) }]);
    let table = vec![(needed[0], f(1.5 + 2.0))];
    let file = StdFile::compile_from_ast(Game::Th12, &script, &mut ctx, table).ok().unwrap();
    assert_eq!(file.script.len(), 1);
    assert_eq!(file.script[0].args[0].expect_raw().bits, 3.5f32.to_bits());
}

#[test]
fn calls_are_checked() {
    let call = |name: &str, args: Vec<Sp<Expr>>| {
        stmt(StmtBody::Expr(sp(Expr::Call { func: sp(Ident::new(name)), args })))
    };
    let lit = |value: i32| sp(Expr::LitInt { value, hex: false });
    let mut ctx = context(&[(2, FFF), (12, &[ArgEncoding::Dword])]);
    let mut run = |code: Vec<Sp<Stmt>>| {
        errors_of(compile(vec![meta_item(late_meta()), main_item(code)], &mut ctx))
    };
    let e = run(vec![call("fly", vec![])]);
    assert!(matches!(&e[0], Diagnostic::UnknownInstruction { name } if name.value.is("fly")));
    let e = run(vec![call("ins_77", vec![])]);
    assert!(matches!(e[0], Diagnostic::SignatureUnknown { .. }));
    let e = run(vec![call("ins_12", vec![])]);
    assert!(matches!(e[0], Diagnostic::WrongArgCount { expected: 1, actual: 0, .. }));
    let e = run(vec![call("ins_2", vec![lit(1), lit(2), lit(3)])]);
    assert_eq!(e.len(), 3);
    assert!(matches!(e[2], Diagnostic::WrongArgType { index: 3, .. }));
    // the errors of all statements are gathered
    let e = run(vec![call("fly", vec![]), call("ins_12", vec![])]);
    assert_eq!(e.len(), 2);
}

#[test]
fn labels_are_checked() {
    let goto = |name: &str| {
        StmtBody::Jump(StmtGoto { destination: sp(Ident::new(name)), time: None })
    };
    let labelled = |name: &str, body: StmtBody| {
        sp(Stmt {
            time: 0,
            labels: vec![sp(StmtLabel::Label(sp(Ident::new(name))))],
            body: sp(body),
        })
    };
    let mut ctx = TypeSystem::new();
    let mut run =
        |code: Vec<Sp<Stmt>>| compile(vec![meta_item(late_meta()), main_item(code)], &mut ctx);
    let e = errors_of(run(vec![stmt(goto("nowhere"))]));
    assert!(matches!(&e[0], Diagnostic::UndefinedLabel { label } if label.value.is("nowhere")));
    let e = errors_of(run(vec![labelled("a", goto("a")), labelled("a", goto("a"))]));
    assert!(matches!(e[0], Diagnostic::DuplicateLabel { .. }));
    let e = errors_of(run(vec![stmt(goto("a")), labelled("a", StmtBody::NoInstruction)]));
    assert!(matches!(&e[0], Diagnostic::LabelAtEnd { label } if label.value.is("a")));
    // the time of a jump is that of its target, unless it is given
    let target = sp(Stmt {
        time: 40,
        labels: vec![sp(StmtLabel::Label(sp(Ident::new("a"))))],
        body: sp(goto("a")),
    });
    let file = run(vec![stmt(goto("a")), target]).ok().unwrap();
    assert_eq!(file.script[0].args[0].expect_raw().bits, 16);
    assert_eq!(file.script[0].args[1].expect_raw().bits, 40);
}

#[test]
fn loops_become_jumps() {
    let call = stmt(StmtBody::Expr(sp(Expr::Call {
        func: sp(Ident::new("ins_0")),
        args: vec![],
    })));
    let mut ctx = context(&[(0, &[])]);
    let body = StmtBody::Loop { block: Block(vec![call]) };
    let file = compile(vec![meta_item(late_meta()), main_item(vec![stmt(body)])], &mut ctx);
    let script = file.ok().unwrap().script;
    assert_eq!(script.len(), 2);
    assert_eq!(script[0].opcode, 0);
    assert_eq!(script[1].opcode, 1);
    assert_eq!(script[1].args[0].expect_raw().bits, 0);
}

#[test]
fn meta_sections_are_read_back() {
    let file = early_file(vec![]);
    let ctx = TypeSystem::new();
    let script = file.decompile_to_ast(Game::Th08, &ctx).unwrap();
    let mut ctx = TypeSystem::new();
    let back = StdFile::compile_from_ast(Game::Th08, &script, &mut ctx, vec![]).ok().unwrap();
    assert_eq!(back.unknown, 5);
    assert_eq!(back.objects.get_index(0).unwrap().0, "object0");
    match (&back.extra, &file.extra) {
        (StdExtra::Th06 { stage_name: a, bgm: x }, StdExtra::Th06 { stage_name: b, bgm: y }) => {
            assert_eq!(a, b);
            assert_eq!(x[3].path, y[3].path);
        },
        _ => panic!("wrong header"),
    }
    // the usual value is left out, and comes back
    match &script.items[0].value {
        Item::Meta { fields, .. } => {
            let text = format!("{:?}", fields.value);
            assert!(!text.contains("256"));
        },
        _ => panic!("expected meta"),
    }
    assert_eq!(back.instances[0].unknown, 256);
}

#[test]
fn text_that_is_not_utf8_is_replaced() {
    let mut file = late_file(vec![]);
    file.extra = StdExtra::Th10 { anm_path: b"a\xFFb".to_vec() };
    let ctx = TypeSystem::new();
    let script = file.decompile_to_ast(Game::Th12, &ctx).unwrap();
    let mut ctx = TypeSystem::new();
    let back = StdFile::compile_from_ast(Game::Th12, &script, &mut ctx, vec![]).ok().unwrap();
    match back.extra {
        StdExtra::Th10 { anm_path } => assert_eq!(anm_path, "a\u{FFFD}b".as_bytes()),
        StdExtra::Th06 { .. } => panic!("wrong header"),
    }
}

#[test]
fn null_spans_are_empty() {
    let null = Span::default();
    assert_eq!(sp(1).span, null);
    assert_eq!(null.range(), 0..0);
}

#[test]
fn files_of_other_games_cannot_be_written() {
    let early = early_file(vec![instr(0, 0, &[1, 2, 3])]);
    assert!(early.can_be_written(Game::Th06));
    assert!(early.can_be_written(Game::Th09));
    assert!(!early.can_be_written(Game::Th10));
    let mut late = late_file(vec![instr(0, 2, &[1])]);
    assert!(late.can_be_written(Game::Th12));
    assert!(!late.can_be_written(Game::Th08));
    late.script[0].args.push(InstrArg::TimeOf(sp(Ident::new("x"))));
    assert!(!late.can_be_written(Game::Th12));
}

#[test]
fn reading_stops_at_the_end_offset() {
    let format = InstrFormat10 { game: Game::Th12 };
    let mut bytes: Vec<u8> = Vec::new();
    for opcode in 2..5 {
        format.write_instr(&mut bytes, &instr(0, opcode, &[1]));
    }
    let mut f = BinReader::new(&bytes, 0);
    let mut warnings = vec![];
    let read = read_instrs(&mut f, &format, 100, Some(124), &mut warnings).unwrap();
    assert_eq!(read.len(), 2);
    assert_eq!(f.pos, 24);
    assert_eq!(warnings, vec![Warning::MissingEndMarker]);
    let mut f = BinReader::new(&bytes, 0);
    let mut warnings = vec![];
    let e = read_instrs(&mut f, &format, 100, Some(120), &mut warnings).err().unwrap();
    assert_eq!(e.kind, ReadErrorKind::PastEnd { end: 120, now: 124 });
    assert_eq!(f.pos, 24);
    assert_eq!(warnings, vec![]);
}

#[test]
fn end_markers_are_not_warned_of() {
    let format = InstrFormat10 { game: Game::Th12 };
    let mut bytes: Vec<u8> = Vec::new();
    format.write_instr(&mut bytes, &instr(0, 2, &[1]));
    format.write_terminal_instr(&mut bytes);
    let mut warnings = vec![];
    let mut f = BinReader::new(&bytes, 0);
    let read = read_instrs(&mut f, &format, 0, Some(32), &mut warnings).unwrap();
    assert_eq!(read.len(), 1);
    assert_eq!(warnings, vec![]);
}

#[test]
fn unused_mask_bits_are_warned_of() {
    let bytes = [0u8; 80];
    let told = |size, mask| {
        let mut warnings = vec![];
        let mut f = BinReader::new(&bytes, 0);
        read_dword_args_upto_size(&mut f, size, mask, &mut warnings).unwrap();
        warnings
    };
    assert_eq!(told(8, 3), vec![]);
    assert_eq!(told(8, 4), vec![Warning::UnusedMaskBits { arg: 3, nargs: 2 }]);
    assert_eq!(told(8, 0b11_0011), vec![Warning::UnusedMaskBits { arg: 5, nargs: 2 }]);
    assert_eq!(told(0, 0x8000), vec![Warning::UnusedMaskBits { arg: 16, nargs: 0 }]);
    assert_eq!(told(64, 0xffff), vec![]);
    assert_eq!(told(80, 0xffff), vec![]);
    // nothing is told if the arguments cannot be read
    let mut warnings = vec![];
    let mut f = BinReader::new(&bytes, 76);
    assert!(read_dword_args_upto_size(&mut f, 8, 4, &mut warnings).is_err());
    assert_eq!(warnings, vec![]);
}

#[test]
fn nothing_is_read_of_an_odd_size() {
    let bytes = [1u8, 2, 3, 4, 5, 6, 7, 8];
    let mut f = BinReader::new(&bytes, 0);
    assert!(read_dword_args_upto_size(&mut f, 6, 0, &mut vec![]).is_err());
    assert_eq!(f.pos, 0);
    let args = read_dword_args_upto_size(&mut f, 8, 2, &mut vec![]).unwrap();
    assert_eq!(f.pos, 8);
    assert_eq!(args[0], InstrArg::Raw(RawArg { bits: 0x04030201, is_var: false }));
    assert_eq!(args[1], InstrArg::Raw(RawArg { bits: 0x08070605, is_var: true }));
}
