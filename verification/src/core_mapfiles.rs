//! The signatures of instructions that are known without a mapfile.

use crate::game::Game;
use crate::llir::intrinsic::{
    abi_props, before_padding, enumerated, first_with, take_jump, ArgsV, IntrinsicInstrKind,
};
use crate::llir::{check_jump_args, count_of, letters, parse_abi_spec, ArgEncoding};
use vstd::prelude::*;

verus! {

/// The signature of an instruction, from some game on.
#[derive(Debug, Copy, Clone)]
pub struct CoreIns {
    pub game: Game,
    pub opcode: u16,
    /// The encodings of the arguments.
    pub signature: &'static str,
    /// What the instruction stands for in a script, if it is more than a plain call.
    pub kind: Option<IntrinsicInstrKind>,
}

/// The signatures of the instructions of some games.  A later entry holds for its game and those
/// after it.
#[derive(Debug)]
pub struct CoreSignatures {
    pub ins: Vec<CoreIns>,
}

pub open spec fn ins_spec(
    game: Game,
    opcode: u16,
    signature: &'static str,
    kind: Option<IntrinsicInstrKind>,
) -> CoreIns {
    CoreIns { game, opcode, signature, kind }
}

fn push_ins(
    ins: &mut Vec<CoreIns>,
    game: Game,
    opcode: u16,
    signature: &'static str,
    kind: Option<IntrinsicInstrKind>,
)
    ensures
        final(ins)@ == old(ins)@.push(ins_spec(game, opcode, signature, kind)),
{
    ins.push(CoreIns { game, opcode, signature, kind });
}

/// The instructions of the first game.
pub open spec fn std_06_spec() -> Seq<CoreIns> {
    seq![
        ins_spec(Game::Th06, 0, "fff", None),
        ins_spec(Game::Th06, 1, "Cff", None),
        ins_spec(Game::Th06, 2, "fff", None),
        ins_spec(Game::Th06, 3, "S__", None),
        ins_spec(Game::Th06, 4, "S__", None),
        ins_spec(Game::Th06, 5, "___", None),
    ]
}

fn std_06() -> (r: CoreSignatures)
    ensures
        r.ins@ == std_06_spec(),
{
    let mut ins: Vec<CoreIns> = Vec::new();
    push_ins(&mut ins, Game::Th06, 0, "fff", None);
    push_ins(&mut ins, Game::Th06, 1, "Cff", None);
    push_ins(&mut ins, Game::Th06, 2, "fff", None);
    push_ins(&mut ins, Game::Th06, 3, "S__", None);
    push_ins(&mut ins, Game::Th06, 4, "S__", None);
    push_ins(&mut ins, Game::Th06, 5, "___", None);
    CoreSignatures { ins }
}

/// The instructions of the games up to the ninth.
pub open spec fn std_07_09_spec() -> Seq<CoreIns> {
    seq![
        ins_spec(Game::Th07, 0, "fff", None),
        ins_spec(Game::Th07, 1, "Cff", None),
        ins_spec(Game::Th07, 2, "S__", None),
        ins_spec(Game::Th07, 3, "___", None),
        ins_spec(Game::Th07, 4, "ot_", Some(IntrinsicInstrKind::Jmp)),
        ins_spec(Game::Th07, 5, "fff", None),
        ins_spec(Game::Th07, 6, "SS_", None),
        ins_spec(Game::Th07, 7, "fff", None),
        ins_spec(Game::Th07, 8, "SS_", None),
        ins_spec(Game::Th07, 9, "fff", None),
        ins_spec(Game::Th07, 10, "SS_", None),
        ins_spec(Game::Th07, 11, "f__", None),
        ins_spec(Game::Th07, 12, "SS_", None),
        ins_spec(Game::Th07, 13, "C__", None),
        ins_spec(Game::Th07, 14, "fff", None),
        ins_spec(Game::Th07, 15, "fff", None),
        ins_spec(Game::Th07, 16, "fff", None),
        ins_spec(Game::Th07, 17, "fff", None),
        ins_spec(Game::Th07, 18, "S__", None),
        ins_spec(Game::Th07, 19, "fff", None),
        ins_spec(Game::Th07, 20, "fff", None),
        ins_spec(Game::Th07, 21, "fff", None),
        ins_spec(Game::Th07, 22, "fff", None),
        ins_spec(Game::Th07, 23, "S__", None),
        ins_spec(Game::Th07, 24, "fff", None),
        ins_spec(Game::Th07, 25, "fff", None),
        ins_spec(Game::Th07, 26, "fff", None),
        ins_spec(Game::Th07, 27, "fff", None),
        ins_spec(Game::Th07, 28, "S__", None),
        ins_spec(Game::Th07, 29, "S__", None),
        ins_spec(Game::Th07, 30, "S__", None),
        ins_spec(Game::Th07, 31, "S__", Some(IntrinsicInstrKind::InterruptLabel)),
        ins_spec(Game::Th08, 32, "fff", None),
        ins_spec(Game::Th08, 33, "S__", None),
        ins_spec(Game::Th08, 34, "S__", None),
    ]
}

fn std_07_09() -> (r: CoreSignatures)
    ensures
        r.ins@ == std_07_09_spec(),
{
    let mut ins: Vec<CoreIns> = Vec::new();
    push_ins(&mut ins, Game::Th07, 0, "fff", None);
    push_ins(&mut ins, Game::Th07, 1, "Cff", None);
    push_ins(&mut ins, Game::Th07, 2, "S__", None);
    push_ins(&mut ins, Game::Th07, 3, "___", None);
    push_ins(&mut ins, Game::Th07, 4, "ot_", Some(IntrinsicInstrKind::Jmp));
    push_ins(&mut ins, Game::Th07, 5, "fff", None);
    push_ins(&mut ins, Game::Th07, 6, "SS_", None);
    push_ins(&mut ins, Game::Th07, 7, "fff", None);
    push_ins(&mut ins, Game::Th07, 8, "SS_", None);
    push_ins(&mut ins, Game::Th07, 9, "fff", None);
    push_ins(&mut ins, Game::Th07, 10, "SS_", None);
    push_ins(&mut ins, Game::Th07, 11, "f__", None);
    push_ins(&mut ins, Game::Th07, 12, "SS_", None);
    push_ins(&mut ins, Game::Th07, 13, "C__", None);
    push_ins(&mut ins, Game::Th07, 14, "fff", None);
    push_ins(&mut ins, Game::Th07, 15, "fff", None);
    push_ins(&mut ins, Game::Th07, 16, "fff", None);
    push_ins(&mut ins, Game::Th07, 17, "fff", None);
    push_ins(&mut ins, Game::Th07, 18, "S__", None);
    push_ins(&mut ins, Game::Th07, 19, "fff", None);
    push_ins(&mut ins, Game::Th07, 20, "fff", None);
    push_ins(&mut ins, Game::Th07, 21, "fff", None);
    push_ins(&mut ins, Game::Th07, 22, "fff", None);
    push_ins(&mut ins, Game::Th07, 23, "S__", None);
    push_ins(&mut ins, Game::Th07, 24, "fff", None);
    push_ins(&mut ins, Game::Th07, 25, "fff", None);
    push_ins(&mut ins, Game::Th07, 26, "fff", None);
    push_ins(&mut ins, Game::Th07, 27, "fff", None);
    push_ins(&mut ins, Game::Th07, 28, "S__", None);
    push_ins(&mut ins, Game::Th07, 29, "S__", None);  // anm script
    push_ins(&mut ins, Game::Th07, 30, "S__", None);  // anm script
    push_ins(&mut ins, Game::Th07, 31, "S__", Some(IntrinsicInstrKind::InterruptLabel));
    push_ins(&mut ins, Game::Th08, 32, "fff", None);
    push_ins(&mut ins, Game::Th08, 33, "S__", None);
    push_ins(&mut ins, Game::Th08, 34, "S__", None);  // anm script
    CoreSignatures { ins }
}

/// The instructions of the later games.
pub open spec fn std_095_18_spec() -> Seq<CoreIns> {
    seq![
        ins_spec(Game::Th095, 0, "", None),
        ins_spec(Game::Th095, 1, "ot", Some(IntrinsicInstrKind::Jmp)),
        ins_spec(Game::Th095, 2, "fff", None),
        ins_spec(Game::Th095, 3, "SSfff", None),
        ins_spec(Game::Th095, 4, "fff", None),
        ins_spec(Game::Th095, 5, "SSfff", None),
        ins_spec(Game::Th095, 6, "fff", None),
        ins_spec(Game::Th095, 7, "f", None),
        ins_spec(Game::Th095, 8, "Cff", None),
        ins_spec(Game::Th095, 9, "SSCff", None),
        ins_spec(Game::Th095, 10, "SSfffffffff", None),
        ins_spec(Game::Th095, 11, "SSfffffffff", None),
        ins_spec(Game::Th095, 12, "S", None),
        ins_spec(Game::Th095, 13, "C", None),
        ins_spec(Game::Th095, 14, "SS", None),
        ins_spec(Game::Th11, 16, "S", Some(IntrinsicInstrKind::InterruptLabel)),
        ins_spec(Game::Th11, 17, "S", None),
        ins_spec(Game::Th12, 18, "SSfff", None),
        ins_spec(Game::Th14, 14, "SSS", None),
        ins_spec(Game::Th14, 19, "S", None),
        ins_spec(Game::Th14, 20, "f", None),
        ins_spec(Game::Th17, 21, "SSf", None),
    ]
}

fn std_095_18() -> (r: CoreSignatures)
    ensures
        r.ins@ == std_095_18_spec(),
{
    let mut ins: Vec<CoreIns> = Vec::new();
    push_ins(&mut ins, Game::Th095, 0, "", None);
    push_ins(&mut ins, Game::Th095, 1, "ot", Some(IntrinsicInstrKind::Jmp));
    push_ins(&mut ins, Game::Th095, 2, "fff", None);
    push_ins(&mut ins, Game::Th095, 3, "SSfff", None);
    push_ins(&mut ins, Game::Th095, 4, "fff", None);
    push_ins(&mut ins, Game::Th095, 5, "SSfff", None);
    push_ins(&mut ins, Game::Th095, 6, "fff", None);
    push_ins(&mut ins, Game::Th095, 7, "f", None);
    push_ins(&mut ins, Game::Th095, 8, "Cff", None);
    push_ins(&mut ins, Game::Th095, 9, "SSCff", None);
    push_ins(&mut ins, Game::Th095, 10, "SSfffffffff", None);
    push_ins(&mut ins, Game::Th095, 11, "SSfffffffff", None);
    push_ins(&mut ins, Game::Th095, 12, "S", None);
    push_ins(&mut ins, Game::Th095, 13, "C", None);
    push_ins(&mut ins, Game::Th095, 14, "SS", None);  // SN
    // 15 appears to be a nop (i.e. it's not in the jumptable).
    //    However, no game ever uses it
    push_ins(&mut ins, Game::Th11, 16, "S", Some(IntrinsicInstrKind::InterruptLabel));
    push_ins(&mut ins, Game::Th11, 17, "S", None);
    push_ins(&mut ins, Game::Th12, 18, "SSfff", None);
    push_ins(&mut ins, Game::Th14, 14, "SSS", None);  // SNS. 'layer' argument added
    push_ins(&mut ins, Game::Th14, 19, "S", None);
    push_ins(&mut ins, Game::Th14, 20, "f", None);
    push_ins(&mut ins, Game::Th17, 21, "SSf", None);
    CoreSignatures { ins }
}

pub open spec fn core_signatures_spec(game: Game) -> Seq<CoreIns> {
    match game {
        Game::Th06 => std_06_spec(),
        Game::Th07 | Game::Th08 | Game::Th09 => std_07_09_spec(),
        _ => std_095_18_spec(),
    }
}

/// The signatures of the instructions in the STD files of a game.
pub fn core_signatures(game: Game) -> (r: CoreSignatures)
    ensures
        r.ins@ == core_signatures_spec(game),
{
    match game {
        Game::Th06 => std_06(),
        Game::Th07 | Game::Th08 | Game::Th09 => std_07_09(),
        Game::Th095 | Game::Th10 | Game::Alcostg | Game::Th11 | Game::Th12 | Game::Th125
        | Game::Th128 | Game::Th13 | Game::Th14 | Game::Th143 | Game::Th15 | Game::Th16
        | Game::Th165 | Game::Th17 | Game::Th18 => std_095_18(),
    }
}

/// Whether a letter stands for an argument that is not part of a jump.
pub open spec fn plain_letter(c: char) -> bool {
    c == 'S' || c == '_' || c == 'C' || c == 'f'
}

/// Letters that have nothing to do with jumps always make a signature.
proof fn lemma_plain_letters(s: Seq<char>, n: nat)
    requires
        n <= s.len(),
        forall|i: int| 0 <= i < s.len() ==> plain_letter(#[trigger] s[i]),
    ensures
        letters(s, n) matches Ok(encodings) && encodings.len() == n && count_of(
            encodings,
            ArgEncoding::JumpOffset,
        ) == 0 && count_of(encodings, ArgEncoding::JumpTime) == 0,
        n == 1 ==> (letters(s, 1)->Ok_0)[0] == ArgEncoding::from_char_spec(s[0])->0,
    decreases n,
{
    if n > 0 {
        lemma_plain_letters(s, (n - 1) as nat);
        assert(plain_letter(s[n - 1]));
        let done = letters(s, (n - 1) as nat)->Ok_0;
        let all = letters(s, n)->Ok_0;
        assert(all.drop_last() =~= done);
    }
}

/// A signature is well-formed, and right for what the instruction stands for.
pub open spec fn well_formed(ins: CoreIns) -> bool {
    match parse_abi_spec(ins.signature@) {
        Ok(encodings) => ins.kind matches Some(kind) ==> abi_props(kind, encodings) is Ok,
        Err(_) => false,
    }
}


/// Every letter of a signature is one that has nothing to do with jumps.
pub open spec fn plain(signature: &str) -> bool {
    forall|i: int| 0 <= i < signature@.len() ==> plain_letter(#[trigger] signature@[i])
}

proof fn lemma_plain(signature: &str)
    requires
        plain(signature),
    ensures
        parse_abi_spec(signature@) is Ok,
{
    lemma_plain_letters(signature@, signature@.len());
}

proof fn lemma_plain_signatures()
    ensures
        plain("fff"),
        plain("Cff"),
        plain("S__"),
        plain("___"),
        plain("SS_"),
        plain("f__"),
        plain("C__"),
        plain(""),
        plain("SSfff"),
        plain("f"),
        plain("SSCff"),
        plain("SSfffffffff"),
        plain("S"),
        plain("C"),
        plain("SS"),
        plain("SSS"),
        plain("SSf"),
{
    reveal_strlit("fff");
    reveal_strlit("Cff");
    reveal_strlit("S__");
    reveal_strlit("___");
    reveal_strlit("SS_");
    reveal_strlit("f__");
    reveal_strlit("C__");
    reveal_strlit("");
    reveal_strlit("SSfff");
    reveal_strlit("f");
    reveal_strlit("SSCff");
    reveal_strlit("SSfffffffff");
    reveal_strlit("S");
    reveal_strlit("C");
    reveal_strlit("SS");
    reveal_strlit("SSS");
    reveal_strlit("SSf");
}

proof fn lemma_jump_signatures()
    ensures
        parse_abi_spec("ot"@) matches Ok(e) && abi_props(IntrinsicInstrKind::Jmp, e) is Ok,
        parse_abi_spec("ot_"@) matches Ok(e) && abi_props(IntrinsicInstrKind::Jmp, e) is Ok,
{
    reveal_strlit("ot");
    reveal_strlit("ot_");
    reveal_with_fuel(letters, 4);
    reveal_with_fuel(count_of, 4);
    reveal_with_fuel(first_with, 4);
    reveal_with_fuel(before_padding, 2);
    let short = seq![ArgEncoding::JumpOffset, ArgEncoding::JumpTime];
    let long = short.push(ArgEncoding::Padding);
    assert(letters("ot"@, 2)->Ok_0 =~= short);
    assert(letters("ot_"@, 3)->Ok_0 =~= long);
    assert(short.drop_last() =~= seq![ArgEncoding::JumpOffset]);
    assert(short.drop_last().drop_last() =~= seq![]);
    assert(long.drop_last() =~= short);
    assert(check_jump_args(short) is Ok);
    assert(check_jump_args(long) is Ok);
    lemma_two_jump_args(short, enumerated(short));
    assert(before_padding(enumerated(short)) == enumerated(short));
    assert(enumerated(long).drop_last() =~= enumerated(short));
    assert(before_padding(enumerated(long)) == enumerated(short));
}

proof fn lemma_two_jump_args(encodings: Seq<ArgEncoding>, args: ArgsV)
    requires
        encodings == seq![ArgEncoding::JumpOffset, ArgEncoding::JumpTime],
        args == enumerated(encodings),
    ensures
        take_jump(args) matches Ok((_, rest)) && rest.len() == 0,
{
    reveal_with_fuel(first_with, 3);
    assert(first_with(args, ArgEncoding::JumpOffset, 2) == Some(0int));
    let rest = args.remove(0);
    assert(rest[0] == args[1]);
    assert(first_with(rest, ArgEncoding::JumpTime, 1) == Some(0int));
}

proof fn lemma_interrupt_signatures()
    ensures
        parse_abi_spec("S"@) matches Ok(e) && abi_props(IntrinsicInstrKind::InterruptLabel, e) is Ok,
        parse_abi_spec("S__"@) matches Ok(e) && abi_props(
            IntrinsicInstrKind::InterruptLabel,
            e,
        ) is Ok,
{
    lemma_plain_signatures();
    lemma_plain("S");
    lemma_plain("S__");
    reveal_strlit("S");
    reveal_strlit("S__");
    reveal_with_fuel(letters, 4);
    let short = seq![ArgEncoding::Dword];
    let long = seq![ArgEncoding::Dword, ArgEncoding::Padding, ArgEncoding::Padding];
    assert(letters("S"@, 1)->Ok_0 =~= short);
    assert(letters("S__"@, 3)->Ok_0 =~= long);
    assert(before_padding(enumerated(short)) == enumerated(short));
    let all = enumerated(long);
    assert(all.drop_last().drop_last() =~= enumerated(short));
    assert(before_padding(all.drop_last().drop_last()) == enumerated(short));
    assert(before_padding(all.drop_last()) == enumerated(short));
    assert(before_padding(all) == enumerated(short));
}

/// The signatures that are known without a mapfile are all well-formed, and those of jumps and
/// interrupt labels fit what they stand for.
#[verifier::rlimit(40)]
pub proof fn law_core_signatures_are_well_formed(game: Game, i: int)
    requires
        0 <= i < core_signatures_spec(game).len(),
    ensures
        well_formed(core_signatures_spec(game)[i]),
{
    lemma_plain_signatures();
    lemma_plain("fff");
    lemma_plain("Cff");
    lemma_plain("S__");
    lemma_plain("___");
    lemma_plain("SS_");
    lemma_plain("f__");
    lemma_plain("C__");
    lemma_plain("");
    lemma_plain("SSfff");
    lemma_plain("f");
    lemma_plain("SSCff");
    lemma_plain("SSfffffffff");
    lemma_plain("S");
    lemma_plain("C");
    lemma_plain("SS");
    lemma_plain("SSS");
    lemma_plain("SSf");
    lemma_jump_signatures();
    lemma_interrupt_signatures();
}

} // verus!
