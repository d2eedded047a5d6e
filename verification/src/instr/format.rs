//! What the formats of different games have to say about instructions, and the reading and
//! writing of whole scripts.

use crate::binary_io::{
    lemma_u32_round_trip, take_u32, u32_bytes, write_u32, BinReader, InstrPlace, Parsed, ReadError,
    ReadErrorKind, ReadResult, Warning,
};
use crate::instr::{
    args_view, effective_pairs, instrs_view, Instr, InstrArg, InstrArgV, InstrV,
    IntrinsicInstrKind, IntrinsicInstrs, RawArg,
};
use crate::type_system::ScalarType;
use vstd::arithmetic::div_mod::{lemma_basic_div, lemma_div_denominator, lemma_div_non_zero};
use vstd::arithmetic::power2::{lemma2_to64, lemma_pow2_pos, lemma_pow2_unfold, pow2};
use vstd::prelude::*;

verus! {

/// Whether every argument of an instruction has its final value.
pub open spec fn all_raw(args: Seq<InstrArgV>) -> bool {
    forall|i: int| 0 <= i < args.len() ==> (#[trigger] args[i]) is Raw
}

/// The instructions of one kind of script in one game.
pub trait InstrFormat {
    /// The number of bytes in the binary encoding of an instruction.
    spec fn instr_size_spec(&self, instr: InstrV) -> nat;

    /// The instructions that stand for operations of the language.
    spec fn pairs_spec(&self) -> Seq<(IntrinsicInstrKind, u16)>;

    /// The binary encoding of an instruction.
    spec fn instr_bytes(&self, instr: InstrV) -> Seq<u8>;

    /// The marker behind the last instruction of a script.
    spec fn terminal_bytes(&self) -> Seq<u8>;

    /// What is read of binary data: an instruction, or `None` for the end marker.
    spec fn take_instr(&self, s: Seq<u8>) -> Parsed<Option<InstrV>>;

    /// The warnings that are given when an instruction is read.
    spec fn instr_warnings(&self, s: Seq<u8>) -> Seq<Warning>;

    /// Whether the encoding of an instruction can be read back.
    spec fn writable(&self, instr: InstrV) -> bool;

    /// The registers of a type that a script can use as it likes.
    spec fn general_use_regs_spec(&self, ty: ScalarType) -> Seq<i32>;

    spec fn jump_has_time_arg_spec(&self) -> bool;

    spec fn terminating_spec(&self, opcode: u16) -> bool;

    /// Whether an offset is one at which an instruction can start.
    spec fn encodable(&self, offset: nat) -> bool;

    /// Whether an argument stands for an offset that can be counted.
    spec fn decodable(&self, bits: u32) -> bool;

    spec fn encode_label_spec(&self, offset: nat) -> u32;

    spec fn decode_label_spec(&self, bits: u32) -> nat;

    /// Instructions that follow one another start at offsets that labels can have.
    proof fn lemma_offsets(&self, offset: nat, instr: InstrV)
        ensures
            self.encodable(0),
            self.encodable(offset) ==> self.encodable(offset + self.instr_size_spec(instr)),
    ;

    /// Reading an instruction takes as many bytes as the instruction has, and its arguments have
    /// their final values.
    proof fn lemma_take_size(&self, s: Seq<u8>)
        ensures
            self.take_instr(s) matches Ok((Some(instr), rest)) ==> {
                &&& all_raw(instr.args)
                &&& 0 < self.instr_size_spec(instr)
                &&& s.len() == self.instr_size_spec(instr) + rest.len()
            },
    ;

    /// An instruction is read back as it was written, and so is the end marker.
    proof fn lemma_round_trip(&self, instr: InstrV, rest: Seq<u8>)
        ensures
            self.writable(instr) ==> self.take_instr(self.instr_bytes(instr) + rest) == Ok::<
                (Option<InstrV>, Seq<u8>),
                ReadErrorKind,
            >((Some(instr), rest)),
            self.take_instr(self.terminal_bytes() + rest) matches Ok((None, _)),
    ;

    /// Get the number of bytes in the binary encoding of an instruction.
    fn instr_size(&self, instr: &Instr) -> (r: usize)
        requires
            self.instr_size_spec(instr@) <= usize::MAX,
        ensures
            r == self.instr_size_spec(instr@),
    ;

    /// Get the number of bytes in the binary encoding of an instruction, if it can be counted.
    fn checked_instr_size(&self, instr: &Instr) -> (r: Option<usize>)
        ensures
            match r {
                Some(size) => size == self.instr_size_spec(instr@),
                None => self.instr_size_spec(instr@) > usize::MAX,
            },
    ;

    /// The table of the instructions that stand for operations.
    fn intrinsic_instrs(&self) -> (r: IntrinsicInstrs)
        ensures
            r@ == effective_pairs(self.pairs_spec()),
    {
        IntrinsicInstrs::from_pairs(self.intrinsic_opcode_pairs())
    }

    fn intrinsic_opcode_pairs(&self) -> (r: Vec<(IntrinsicInstrKind, u16)>)
        ensures
            r@ == self.pairs_spec(),
    ;

    /// Read a single script instruction.
    ///
    /// Returns `None` when it reaches the marker that indicates the end of the script.
    /// When this occurs, it may leave the reader anywhere.
    fn read_instr(&self, f: &mut BinReader, warnings: &mut Vec<Warning>) -> (r: ReadResult<
        Option<Instr>,
    >)
        requires
            old(f).wf(),
        ensures
            final(f).wf(),
            final(f).bytes == old(f).bytes,
            final(warnings)@ == old(warnings)@ + self.instr_warnings(old(f).rest()),
            match self.take_instr(old(f).rest()) {
                Ok((Some(instr), rest)) => r matches Ok(Some(x)) && x@ == instr
                    && final(f).rest() == rest,
                Ok((None, _)) => r matches Ok(None),
                Err(e) => r matches Err(k) && k == e,
            },
    ;

    /// Write a single script instruction.
    fn write_instr(&self, out: &mut Vec<u8>, instr: &Instr)
        requires
            all_raw(instr@.args),
        ensures
            final(out)@ == old(out)@ + self.instr_bytes(instr@),
    ;

    /// Write a marker that goes after the final instruction in a function or script.
    fn write_terminal_instr(&self, out: &mut Vec<u8>)
        ensures
            final(out)@ == old(out)@ + self.terminal_bytes(),
    ;

    /// List of registers available for scratch use in formats without a stack.
    fn general_use_regs(&self, ty: ScalarType) -> (r: Vec<i32>)
        ensures
            r@ == self.general_use_regs_spec(ty),
    ;

    /// Indicates that [`IntrinsicInstrKind::Jmp`] takes two arguments, where the second is time.
    ///
    /// TH06 ANM has no time arg. (it always sets the script clock to the destination's time)
    fn jump_has_time_arg(&self) -> (r: bool)
        ensures
            r == self.jump_has_time_arg_spec(),
    ;

    /// Used by TH06 to indicate that an instruction must be the last instruction in the script.
    fn is_th06_anm_terminating_instr(&self, opcode: u16) -> (r: bool)
        ensures
            r == self.terminating_spec(opcode),
    ;

    /// The argument of a jump to an offset.
    ///
    /// Most formats encode labels as offsets from the beginning of the script, but early STD
    /// is a special snowflake that writes the instruction *index* instead.
    fn encode_label(&self, offset: usize) -> (r: u32)
        requires
            self.encodable(offset as nat),
        ensures
            r == self.encode_label_spec(offset as nat),
    ;

    /// The offset that the argument of a jump stands for.
    fn decode_label(&self, bits: u32) -> (r: usize)
        requires
            self.decodable(bits),
        ensures
            r == self.decode_label_spec(bits),
    ;

    /// Tell whether the argument of a jump stands for an offset that can be counted.
    fn can_decode_label(&self, bits: u32) -> (r: bool)
        ensures
            r == self.decodable(bits),
    ;
}

// =============================================================================

/// What is read of a script: the instructions in `done`, which were read already, and those
/// that follow up to the end marker or to the end offset.
pub open spec fn take_instrs<F: InstrFormat>(
    format: F,
    s: Seq<u8>,
    done: Seq<InstrV>,
    offset: nat,
    end_offset: Option<usize>,
) -> Result<Seq<InstrV>, ReadError>
    decreases s.len(),
{
    match format.take_instr(s) {
        Err(kind) => Err(
            ReadError {
                kind,
                instr: Some(InstrPlace { index: done.len() as usize, offset: offset as usize }),
            },
        ),
        Ok((None, _)) => Ok(done),
        Ok((Some(instr), rest)) => {
            let now = offset + format.instr_size_spec(instr);
            if end_offset matches Some(end) && now == end {
                Ok(done.push(instr))
            } else if end_offset matches Some(end) && now > end {
                Err(
                    ReadError {
                        kind: ReadErrorKind::PastEnd { end: end_offset->0, now: now as usize },
                        instr: None,
                    },
                )
            } else if rest.len() < s.len() {
                take_instrs(format, rest, done.push(instr), now, end_offset)
            } else {
                arbitrary()
            }
        },
    }
}

/// The warnings that are given when a script is read: those of its instructions, and one if the
/// end offset is reached with no end marker.
pub open spec fn instrs_warnings<F: InstrFormat>(
    format: F,
    s: Seq<u8>,
    offset: nat,
    end_offset: Option<usize>,
) -> Seq<Warning>
    decreases s.len(),
{
    format.instr_warnings(s) + match format.take_instr(s) {
        Ok((Some(instr), rest)) => {
            let now = offset + format.instr_size_spec(instr);
            if end_offset matches Some(end) && now == end {
                seq![Warning::MissingEndMarker]
            } else if end_offset matches Some(end) && now > end {
                seq![]
            } else if rest.len() < s.len() {
                instrs_warnings(format, rest, now, end_offset)
            } else {
                arbitrary()
            }
        },
        _ => seq![],
    }
}

/// The number of bytes in the encodings of instructions.
pub open spec fn code_size<F: InstrFormat>(format: F, instrs: Seq<InstrV>) -> nat
    decreases instrs.len(),
{
    if instrs.len() == 0 {
        0
    } else {
        code_size(format, instrs.drop_last()) + format.instr_size_spec(instrs.last())
    }
}

/// A missing end marker is told if and only if there are instructions, and the last of them ends
/// at the end offset.
pub proof fn law_missing_end_marker_is_told<F: InstrFormat>(
    format: F,
    s: Seq<u8>,
    starting_offset: nat,
    end_offset: Option<usize>,
)
    requires
        forall|t: Seq<u8>| (#[trigger] format.instr_warnings(t)).len() == 0,
    ensures
        instrs_warnings(format, s, starting_offset, end_offset) == if take_instrs(
            format,
            s,
            seq![],
            starting_offset,
            end_offset,
        ) matches Ok(instrs) && instrs.len() > 0 && end_offset is Some && end_offset->0
            == starting_offset + code_size(format, instrs) {
            seq![Warning::MissingEndMarker]
        } else {
            seq![]
        },
{
    lemma_missing_end_marker(format, s, seq![], starting_offset, end_offset);
}

proof fn lemma_missing_end_marker<F: InstrFormat>(
    format: F,
    s: Seq<u8>,
    done: Seq<InstrV>,
    start: nat,
    end_offset: Option<usize>,
)
    requires
        forall|t: Seq<u8>| (#[trigger] format.instr_warnings(t)).len() == 0,
    ensures
        take_instrs(format, s, done, start + code_size(format, done), end_offset) matches Ok(instrs)
            ==> instrs.len() >= done.len() && (instrs.len() == done.len() ==> instrs == done),
        instrs_warnings(format, s, start + code_size(format, done), end_offset) == if take_instrs(
            format,
            s,
            done,
            start + code_size(format, done),
            end_offset,
        ) matches Ok(instrs) && instrs.len() > done.len() && end_offset is Some && end_offset->0
            == start + code_size(format, instrs) {
            seq![Warning::MissingEndMarker]
        } else {
            seq![]
        },
    decreases s.len(),
{
    let offset = start + code_size(format, done);
    format.lemma_take_size(s);
    assert(format.instr_warnings(s) =~= seq![]);
    if let Ok((Some(instr), rest)) = format.take_instr(s) {
        let more = done.push(instr);
        assert(more.drop_last() =~= done);
        assert(code_size(format, more) == code_size(format, done) + format.instr_size_spec(instr));
        lemma_missing_end_marker(format, rest, more, start, end_offset);
        let w = instrs_warnings(format, rest, start + code_size(format, more), end_offset);
        assert(format.instr_warnings(s) + w =~= w);
        assert(format.instr_warnings(s) + seq![Warning::MissingEndMarker] =~= seq![
            Warning::MissingEndMarker,
        ]);
    }
}

/// What is left behind the instruction that reaches or passes the end offset, if one does.
pub open spec fn left_at_end_offset<F: InstrFormat>(
    format: F,
    s: Seq<u8>,
    offset: nat,
    end_offset: Option<usize>,
) -> Option<Seq<u8>>
    decreases s.len(),
{
    match format.take_instr(s) {
        Ok((Some(instr), rest)) => {
            let now = offset + format.instr_size_spec(instr);
            if end_offset matches Some(end) && now >= end {
                Some(rest)
            } else if rest.len() < s.len() {
                left_at_end_offset(format, rest, now, end_offset)
            } else {
                None
            }
        },
        _ => None,
    }
}

/// Every argument of an instruction that was read has its final value.
pub proof fn law_read_code_is_raw<F: InstrFormat>(
    format: F,
    s: Seq<u8>,
    done: Seq<InstrV>,
    offset: nat,
    end_offset: Option<usize>,
)
    requires
        forall|i: int|
            0 <= i < done.len() ==> all_raw((#[trigger] done[i]).args),
    ensures
        take_instrs(format, s, done, offset, end_offset) matches Ok(instrs) ==> forall|i: int|
            0 <= i < instrs.len() ==> all_raw((#[trigger] instrs[i]).args),
    decreases s.len(),
{
    format.lemma_take_size(s);
    if let Ok((Some(instr), rest)) = format.take_instr(s) {
        let now = offset + format.instr_size_spec(instr);
        law_read_code_is_raw(format, rest, done.push(instr), now, end_offset);
    }
}

/// Reads the instructions of a complete script, attaching useful information on errors.
///
/// Though it primarily uses the `None` output of [`InstrFormat::read_instr`] to determine when to stop reading
/// instructions, it also may be given an end offset. This will cause it to stop with a warning if it lands on this
/// offset without receiving a `None` result, or to fail outright if it goes past this offset.  This enables the
/// reading of TH095's `front.anm`, which contains the only ANM script in existence to have no end marker.  *Sigh.*
pub fn read_instrs<F: InstrFormat>(
    f: &mut BinReader,
    format: &F,
    starting_offset: usize,
    end_offset: Option<usize>,
    warnings: &mut Vec<Warning>,
) -> (r: Result<Vec<Instr>, ReadError>)
    requires
        old(f).wf(),
        starting_offset + old(f).rest().len() <= usize::MAX,
    ensures
        final(f).wf(),
        final(f).bytes == old(f).bytes,
        match take_instrs(
            *format,
            old(f).rest(),
            seq![],
            starting_offset as nat,
            end_offset,
        ) {
            Ok(instrs) => r matches Ok(v) && instrs_view(v@) == instrs,
            Err(e) => r matches Err(k) && k == e,
        },
        left_at_end_offset(*format, old(f).rest(), starting_offset as nat, end_offset) matches Some(
            rest,
        ) ==> final(f).rest() == rest,
        final(warnings)@ == old(warnings)@ + instrs_warnings(
            *format,
            old(f).rest(),
            starting_offset as nat,
            end_offset,
        ),
{
    let mut script: Vec<Instr> = Vec::new();
    let mut offset: usize = starting_offset;
    assert(instrs_view(script@) =~= seq![]);
    loop
        invariant
            f.wf(),
            f.bytes == old(f).bytes,
            offset + f.rest().len() <= usize::MAX,
            script@.len() <= offset,
            take_instrs(*format, old(f).rest(), seq![], starting_offset as nat, end_offset)
                == take_instrs(
                *format,
                f.rest(),
                instrs_view(script@),
                offset as nat,
                end_offset,
            ),
            left_at_end_offset(*format, old(f).rest(), starting_offset as nat, end_offset)
                == left_at_end_offset(*format, f.rest(), offset as nat, end_offset),
            warnings@ + instrs_warnings(*format, f.rest(), offset as nat, end_offset)
                == old(warnings)@ + instrs_warnings(
                *format,
                old(f).rest(),
                starting_offset as nat,
                end_offset,
            ),
        decreases f.rest().len(),
    {
        proof {
            format.lemma_take_size(f.rest());
        }
        let ghost given = warnings@;
        let ghost before = f.rest();
        let ghost own = format.instr_warnings(before);
        match format.read_instr(f, warnings) {
            Err(kind) => {
                assert(given + (own + seq![]) =~= warnings@);
                return Err(
                    ReadError { kind, instr: Some(InstrPlace { index: script.len(), offset }) },
                );
            },
            Ok(None) => {
                assert(given + (own + seq![]) =~= warnings@);
                return Ok(script);
            },
            Ok(Some(instr)) => {
                proof {
                    assert(args_view(instr.args@).len() == instr.args@.len());
                }
                let ghost v = instrs_view(script@);
                let ghost i = instr@;
                offset = offset + format.instr_size(&instr);
                script.push(instr);
                assert(instrs_view(script@) =~= v.push(i));
                if let Some(end) = end_offset {
                    if offset == end {
                        warnings.push(Warning::MissingEndMarker);
                        assert(given + (own + seq![Warning::MissingEndMarker]) =~= warnings@);
                        return Ok(script);
                    }
                    if offset > end {
                        assert(given + (own + seq![]) =~= warnings@);
                        return Err(
                            ReadError {
                                kind: ReadErrorKind::PastEnd { end, now: offset },
                                instr: None,
                            },
                        );
                    }
                }
                proof {
                    let more = instrs_warnings(*format, f.rest(), offset as nat, end_offset);
                    assert(given + (own + more) =~= warnings@ + more);
                }
            },
        }
    }
}

/// The encodings of instructions, one after another.
pub open spec fn instrs_bytes<F: InstrFormat>(format: F, instrs: Seq<InstrV>) -> Seq<u8>
    decreases instrs.len(),
{
    if instrs.len() == 0 {
        seq![]
    } else {
        instrs_bytes(format, instrs.drop_last()) + format.instr_bytes(instrs.last())
    }
}

/// Writes the instructions of a complete script.
pub fn write_instrs<F: InstrFormat>(out: &mut Vec<u8>, format: &F, instrs: &Vec<Instr>)
    requires
        forall|i: int|
            0 <= i < instrs@.len() ==> all_raw((#[trigger] instrs@[i])@.args),
    ensures
        final(out)@ == old(out)@ + instrs_bytes(*format, instrs_view(instrs@))
            + format.terminal_bytes(),
{
    let mut i: usize = 0;
    let ghost v = instrs_view(instrs@);
    assert(old(out)@ + instrs_bytes(*format, v.take(0)) =~= old(out)@);
    while i < instrs.len()
        invariant
            i <= instrs@.len(),
            v == instrs_view(instrs@),
            forall|i: int|
                0 <= i < instrs@.len() ==> all_raw((#[trigger] instrs@[i])@.args),
            out@ == old(out)@ + instrs_bytes(*format, v.take(i as int)),
        decreases instrs@.len() - i,
    {
        assert(instrs@[i as int]@ == v[i as int]);
        format.write_instr(out, &instrs[i]);
        assert(v.take(i + 1).drop_last() =~= v.take(i as int));
        i = i + 1;
        assert(out@ =~= old(out)@ + instrs_bytes(*format, v.take(i as int)));
    }
    assert(v.take(i as int) =~= v);
    format.write_terminal_instr(out);
}

proof fn lemma_instrs_bytes_first<F: InstrFormat>(format: F, instrs: Seq<InstrV>)
    requires
        instrs.len() > 0,
    ensures
        instrs_bytes(format, instrs) == format.instr_bytes(instrs[0]) + instrs_bytes(
            format,
            instrs.skip(1),
        ),
    decreases instrs.len(),
{
    if instrs.len() == 1 {
        assert(instrs.drop_last() =~= seq![]);
        assert(instrs.skip(1) =~= seq![]);
        assert(instrs_bytes(format, instrs.drop_last()) =~= seq![]);
        assert(instrs_bytes(format, instrs) =~= format.instr_bytes(instrs[0]) + instrs_bytes(
            format,
            instrs.skip(1),
        ));
    } else {
        lemma_instrs_bytes_first(format, instrs.drop_last());
        assert(instrs.drop_last().skip(1) =~= instrs.skip(1).drop_last());
        assert(instrs_bytes(format, instrs) =~= format.instr_bytes(instrs[0]) + instrs_bytes(
            format,
            instrs.skip(1),
        ));
    }
}

/// Scripts are read back as they were written, whatever follows them.
pub proof fn law_instrs_round_trip<F: InstrFormat>(
    format: F,
    instrs: Seq<InstrV>,
    done: Seq<InstrV>,
    rest: Seq<u8>,
    offset: nat,
)
    requires
        forall|i: int| 0 <= i < instrs.len() ==> format.writable(#[trigger] instrs[i]),
    ensures
        take_instrs(
            format,
            instrs_bytes(format, instrs) + format.terminal_bytes() + rest,
            done,
            offset,
            None,
        ) == Ok::<Seq<InstrV>, ReadError>(done + instrs),
    decreases instrs.len(),
{
    let s = instrs_bytes(format, instrs) + format.terminal_bytes() + rest;
    if instrs.len() == 0 {
        assert(s =~= format.terminal_bytes() + rest);
        format.lemma_round_trip(arbitrary(), rest);
        assert(done + instrs =~= done);
    } else {
        lemma_instrs_bytes_first(format, instrs);
        let tail = instrs.skip(1);
        let after = instrs_bytes(format, tail) + format.terminal_bytes() + rest;
        assert(s =~= format.instr_bytes(instrs[0]) + after);
        format.lemma_round_trip(instrs[0], after);
        format.lemma_take_size(s);
        assert forall|i: int| 0 <= i < tail.len() implies format.writable(#[trigger] tail[i]) by {
            assert(tail[i] == instrs[i + 1]);
        }
        law_instrs_round_trip(
            format,
            tail,
            done.push(instrs[0]),
            rest,
            offset + format.instr_size_spec(instrs[0]),
        );
        assert(done.push(instrs[0]) + tail =~= done + instrs);
    }
}

// =============================================================================

/// What is read of `n` arguments; the lowest bit of the mask belongs to the first of them.
pub open spec fn take_args(s: Seq<u8>, n: nat, mask: nat) -> Parsed<Seq<InstrArgV>>
    decreases n,
{
    if n == 0 {
        Ok((seq![], s))
    } else {
        match take_u32(s) {
            Err(e) => Err(e),
            Ok((bits, rest)) => match take_args(rest, (n - 1) as nat, mask / 2) {
                Err(e) => Err(e),
                Ok((args, rest)) => Ok(
                    (
                        seq![InstrArgV::Raw(RawArg { bits, is_var: mask % 2 == 1 })] + args,
                        rest,
                    ),
                ),
            },
        }
    }
}

/// What is read of `size` bytes of arguments.
pub open spec fn take_args_upto_size(s: Seq<u8>, size: usize, mask: u16) -> Parsed<
    Seq<InstrArgV>,
> {
    if size % 4 != 0 {
        Err(ReadErrorKind::SizeNotDivisible { size })
    } else {
        take_args(s, (size / 4) as nat, mask as nat)
    }
}

/// Arguments that are read one by one behind others that were read already.
pub open spec fn args_behind(done: Seq<InstrArgV>, more: Parsed<Seq<InstrArgV>>) -> Parsed<
    Seq<InstrArgV>,
> {
    match more {
        Ok((args, rest)) => Ok((done + args, rest)),
        Err(e) => Err(e),
    }
}

/// The number of zero bits below the lowest bit that is set.
pub open spec fn zeros_below(mask: nat) -> nat
    decreases mask,
{
    if mask == 0 || mask % 2 == 1 {
        0
    } else {
        1 + zeros_below(mask / 2)
    }
}

fn count_zeros_below(mask: u16) -> (r: usize)
    ensures
        r == zeros_below(mask as nat),
        r <= mask,
{
    let mut rest: u16 = mask;
    let mut zeros: usize = 0;
    while rest != 0 && rest % 2 == 0
        invariant
            zeros + zeros_below(rest as nat) == zeros_below(mask as nat),
            zeros + rest <= mask,
        decreases rest,
    {
        rest = rest / 2;
        zeros = zeros + 1;
    }
    zeros
}

/// The warning that is given of a parameter mask, if a bit is set in it that belongs to none of
/// `nargs` arguments.  It tells the first such bit, counted as arguments are, from 1.
pub open spec fn mask_warnings(mask: nat, nargs: nat) -> Seq<Warning> {
    if mask < pow2(nargs) {
        seq![]
    } else {
        seq![
            Warning::UnusedMaskBits {
                arg: (zeros_below(mask / pow2(nargs)) + nargs + 1) as usize,
                nargs: nargs as usize,
            },
        ]
    }
}

/// The warnings that are given when `size` bytes of arguments are read.
pub open spec fn args_warnings(s: Seq<u8>, size: usize, mask: u16) -> Seq<Warning> {
    if take_args_upto_size(s, size, mask) is Ok {
        mask_warnings(mask as nat, (size / 4) as nat)
    } else {
        seq![]
    }
}

/// The mask of a list of arguments has no bit that belongs to none of them.
pub proof fn law_computed_mask_is_used(args: Seq<InstrArgV>)
    ensures
        mask_warnings(param_mask(args), args.len()) == Seq::<Warning>::empty(),
    decreases args.len(),
{
    if args.len() == 0 {
        lemma2_to64();
    } else {
        law_computed_mask_is_used(args.skip(1));
        assert(mask_warnings(param_mask(args.skip(1)), args.skip(1).len()).len() == 0);
        assert(param_mask(args.skip(1)) < pow2((args.len() - 1) as nat));
        lemma_pow2_unfold(args.len());
    }
}

/// Helper to help implement `InstrFormat::read_instr`.
///
/// Reads `size` bytes into `size/4` dword arguments and sets their `is_var` flags according to
/// the parameter mask.  (it takes `size` instead of a count to help factor out divisibility checks,
/// as a size is often what you have to work with given the format)
///
/// Warns of bits of the mask that belong to none of the arguments.
pub fn read_dword_args_upto_size(
    f: &mut BinReader,
    size: usize,
    param_mask: u16,
    warnings: &mut Vec<Warning>,
) -> (r: ReadResult<Vec<InstrArg>>)
    requires
        old(f).wf(),
    ensures
        final(f).wf(),
        final(f).bytes == old(f).bytes,
        match take_args_upto_size(old(f).rest(), size, param_mask) {
            Ok((args, rest)) => r matches Ok(v) && args_view(v@) == args && final(f).rest() == rest,
            Err(e) => r matches Err(k) && k == e,
        },
        size % 4 != 0 ==> final(f).rest() == old(f).rest(),
        final(warnings)@ == old(warnings)@ + args_warnings(old(f).rest(), size, param_mask),
{
    assert(warnings@ + seq![] =~= warnings@);
    if size % 4 != 0 {
        return Err(ReadErrorKind::SizeNotDivisible { size });
    }
    let nargs: usize = size / 4;
    proof {
        lemma2_to64();
    }
    let mut mask: u16 = param_mask;
    let mut out: Vec<InstrArg> = Vec::new();
    let ghost parsed = take_args(f.rest(), nargs as nat, param_mask as nat);
    proof {
        match parsed {
            Ok((args, rest)) => {
                assert(args_view(out@) + args =~= args);
            },
            Err(_) => {},
        }
    }
    let mut i: usize = 0;
    while i < nargs
        invariant
            i <= nargs,
            f.wf(),
            f.bytes == old(f).bytes,
            parsed == take_args(old(f).rest(), nargs as nat, param_mask as nat),
            parsed == args_behind(
                args_view(out@),
                take_args(f.rest(), (nargs - i) as nat, mask as nat),
            ),
            size % 4 == 0,
            nargs == size / 4,
            warnings@ == old(warnings)@,
            warnings@ + seq![] == warnings@,
            mask == param_mask as nat / pow2(i as nat),
        decreases nargs - i,
    {
        proof {
            lemma_pow2_pos(i as nat);
            lemma_pow2_unfold((i + 1) as nat);
            lemma_div_denominator(param_mask as int, pow2(i as nat) as int, 2);
        }
        let ghost v = args_view(out@);
        let ghost m = mask;
        let ghost before = f.rest();
        let bits: u32 = match f.read_u32() {
            Ok(bits) => bits,
            Err(e) => return Err(e),
        };
        let is_var: bool = mask % 2 == 1;
        mask = mask / 2;
        out.push(InstrArg::Raw(RawArg { bits, is_var }));
        proof {
            let a = InstrArgV::Raw(RawArg { bits, is_var });
            assert(args_view(out@) =~= v.push(a));
            let tail = take_args(f.rest(), (nargs - i - 1) as nat, mask as nat);
            match tail {
                Ok((args, rest)) => {
                    assert(v + (seq![a] + args) =~= v.push(a) + args);
                },
                Err(_) => {},
            }
        }
        i = i + 1;
    }
    assert(args_view(out@) + seq![] =~= args_view(out@));
    proof {
        lemma_pow2_pos(nargs as nat);
        if param_mask < pow2(nargs as nat) {
            lemma_basic_div(param_mask as int, pow2(nargs as nat) as int);
        } else {
            lemma_div_non_zero(param_mask as int, pow2(nargs as nat) as int);
        }
    }
    if mask != 0 {
        warnings.push(Warning::UnusedMaskBits { arg: count_zeros_below(mask) + nargs + 1, nargs });
    }
    Ok(out)
}

/// Whether an argument counts as a variable in the parameter mask.
pub open spec fn arg_is_var(arg: InstrArgV) -> bool {
    match arg {
        InstrArgV::Raw(raw) => raw.is_var,
        InstrArgV::TimeOf(_) => false,
        InstrArgV::Label(_) => false,
        InstrArgV::Local(_) => true,
    }
}

/// The mask in which the bit of each variable is set; the lowest bit is the first argument's.
pub open spec fn param_mask(args: Seq<InstrArgV>) -> nat
    decreases args.len(),
{
    if args.len() == 0 {
        0
    } else {
        (if arg_is_var(args[0]) {
            1nat
        } else {
            0nat
        }) + 2 * param_mask(args.skip(1))
    }
}

/// An instruction has more arguments than the mask has bits.
#[derive(Debug, Copy, Clone, PartialEq, Eq, Structural)]
pub struct TooManyArgs;

impl Instr {
    /// Set a bit for each argument that is a variable.
    pub fn compute_param_mask(&self) -> (r: Result<u16, TooManyArgs>)
        ensures
            self@.args.len() > 16 <==> r is Err,
            r matches Ok(mask) ==> mask == param_mask(self@.args),
    {
        if self.args.len() > 16 {
            return Err(TooManyArgs);
        }
        let mut mask: u16 = 0;
        let mut n: usize = self.args.len();
        let ghost v = self@.args;
        assert(v.skip(n as int) =~= seq![]);
        proof {
            vstd::arithmetic::power2::lemma2_to64();
        }
        while n > 0
            invariant
                n <= v.len() <= 16,
                v == args_view(self.args@),
                mask == param_mask(v.skip(n as int)),
                mask < vstd::arithmetic::power2::pow2((v.len() - n) as nat),
            decreases n,
        {
            proof {
                vstd::arithmetic::power2::lemma2_to64();
                vstd::arithmetic::power2::lemma_pow2_unfold((v.len() - n + 1) as nat);
                if v.len() - n < 15 {
                    vstd::arithmetic::power2::lemma_pow2_strictly_increases(
                        (v.len() - n) as nat,
                        15,
                    );
                }
                assert(v.skip(n - 1).skip(1) =~= v.skip(n as int));
                assert(v.skip(n - 1)[0] == v[n - 1]);
            }
            let bit: u16 = match &self.args[n - 1] {
                InstrArg::Raw(raw) => if raw.is_var {
                    1
                } else {
                    0
                },
                InstrArg::TimeOf(_) => 0,
                InstrArg::Label(_) => 0,
                InstrArg::Local(_) => 1,
            };
            mask = mask * 2;
            mask = mask + bit;
            n = n - 1;
        }
        assert(v.skip(0) =~= v);
        Ok(mask)
    }
}

/// The bytes of a list of arguments.
pub open spec fn args_bytes(args: Seq<InstrArgV>) -> Seq<u8>
    decreases args.len(),
{
    if args.len() == 0 {
        seq![]
    } else {
        u32_bytes(args[0]->Raw_0.bits) + args_bytes(args.skip(1))
    }
}

pub proof fn lemma_args_bytes_push(args: Seq<InstrArgV>, last: InstrArgV)
    ensures
        args_bytes(args.push(last)) == args_bytes(args) + u32_bytes(last->Raw_0.bits),
        args_bytes(args).len() == 4 * args.len(),
    decreases args.len(),
{
    if args.len() == 0 {
        let tail = args.push(last).skip(1);
        assert(tail.len() == 0);
        assert(args_bytes(tail) =~= seq![]);
        assert(args.push(last)[0] == last);
        assert(args_bytes(args.push(last)) =~= args_bytes(args) + u32_bytes(last->Raw_0.bits));
    } else {
        lemma_args_bytes_push(args.skip(1), last);
        assert(args.push(last).skip(1) =~= args.skip(1).push(last));
        assert(args_bytes(args.push(last)) =~= args_bytes(args) + u32_bytes(last->Raw_0.bits));
    }
}

/// Write arguments that have their final values.
pub fn write_dword_args(out: &mut Vec<u8>, args: &Vec<InstrArg>)
    requires
        all_raw(args_view(args@)),
    ensures
        final(out)@ == old(out)@ + args_bytes(args_view(args@)),
{
    let ghost v = args_view(args@);
    let mut i: usize = 0;
    assert(old(out)@ + args_bytes(v.take(0)) =~= old(out)@);
    while i < args.len()
        invariant
            i <= args@.len(),
            v == args_view(args@),
            all_raw(v),
            out@ == old(out)@ + args_bytes(v.take(i as int)),
        decreases args@.len() - i,
    {
        assert(v[i as int] is Raw);
        write_u32(out, args[i].expect_raw().bits);
        proof {
            lemma_args_bytes_push(v.take(i as int), v[i as int]);
            assert(v.take(i + 1) =~= v.take(i as int).push(v[i as int]));
        }
        i = i + 1;
        assert(out@ =~= old(out)@ + args_bytes(v.take(i as int)));
    }
    assert(v.take(i as int) =~= v);
}

/// Arguments with their final values are read back as they were written if the mask is the
/// one that was computed from them.
pub proof fn law_args_round_trip(args: Seq<InstrArgV>, rest: Seq<u8>)
    requires
        all_raw(args),
    ensures
        take_args(args_bytes(args) + rest, args.len(), param_mask(args)) == Ok::<
            (Seq<InstrArgV>, Seq<u8>),
            ReadErrorKind,
        >((args, rest)),
    decreases args.len(),
{
    if args.len() == 0 {
        assert(args_bytes(args) + rest =~= rest);
        assert(args =~= seq![]);
    } else {
        let tail = args.skip(1);
        let raw = args[0]->Raw_0;
        assert(args[0] is Raw);
        assert(all_raw(tail)) by {
            assert forall|i: int| 0 <= i < tail.len() implies (#[trigger] tail[i]) is Raw by {
                assert(tail[i] == args[i + 1]);
            }
        }
        law_args_round_trip(tail, rest);
        lemma_u32_round_trip(raw.bits, args_bytes(tail) + rest);
        assert(args_bytes(args) + rest =~= u32_bytes(raw.bits) + (args_bytes(tail) + rest));
        assert(seq![args[0]] + tail =~= args);
    }
}

} // verus!
