//! What differs between the STD files of different games.

use crate::binary_io::{
    lemma_u16_round_trip, lemma_u32_round_trip, reads_as, take_bytes, take_u16, take_u32, u16_bytes,
    u32_bytes, write_bytes, write_u16, write_u32, BinReader, Parsed, ReadErrorKind, ReadResult,
    Warning,
};
use crate::game::Game;
use crate::ident::Ident;
use crate::instr::format::{
    all_raw, args_bytes, law_args_round_trip, mask_warnings, param_mask,
    read_dword_args_upto_size, take_args, take_args_upto_size, write_dword_args, InstrFormat,
};
use crate::instr::{Instr, InstrArgV, InstrV, IntrinsicInstrKind};
use crate::meta::{
    built_field, bytes_field, bytes_meta, expect_field_spec, field_names, from_meta_error_view,
    get_field_spec, law_bytes_round_trip, law_list_round_trip, lemma_list_len,
    lemma_literal_fields, lemma_literal_list, list_field_of, list_meta, literal_fields, literal_meta,
    make_bytes, make_list, meta_array_of, values_view,
    BuildObject, FieldsV, FromMeta, MetaError, MetaErrorV, ParseObject, ToMeta,
};
use crate::pos::{sp_null, Sp};
use crate::std_file::meta::{law_bgm_meta_round_trip, lemma_bgm_is_literal};
use crate::std_file::{bgms_view, BgmV, ExtraV, Std06Bgm, StdExtra};
use crate::type_system::ScalarType;
use vstd::arithmetic::power2::lemma_pow2_pos;
use vstd::prelude::*;
use vstd::utf8::valid_utf8;

verus! {

/// Instructions of STD files, EoSD to PoFV.
#[derive(Debug, Copy, Clone)]
pub struct InstrFormat06 {
    pub game: Game,
}

/// Instructions of STD files, StB to present.
#[derive(Debug, Copy, Clone)]
pub struct InstrFormat10 {
    pub game: Game,
}

/// Whether no argument is a variable.
pub open spec fn no_vars(args: Seq<InstrArgV>) -> bool {
    forall|i: int|
        0 <= i < args.len() ==> (#[trigger] args[i]) is Raw && !args[i]->Raw_0.is_var
}

/// A number of zero dwords.
pub open spec fn zero_dwords(n: nat) -> Seq<u8>
    decreases n,
{
    if n == 0 {
        seq![]
    } else {
        zero_dwords((n - 1) as nat) + u32_bytes(0)
    }
}

/// A number of dwords with all bits set.
pub open spec fn ones_dwords(n: nat) -> Seq<u8>
    decreases n,
{
    if n == 0 {
        seq![]
    } else {
        ones_dwords((n - 1) as nat) + u32_bytes(0xffff_ffff)
    }
}

/// Write zero dwords.
pub fn write_zero_dwords(out: &mut Vec<u8>, n: usize)
    ensures
        final(out)@ == old(out)@ + zero_dwords(n as nat),
{
    let mut i: usize = 0;
    assert(old(out)@ + zero_dwords(0) =~= old(out)@);
    while i < n
        invariant
            i <= n,
            out@ == old(out)@ + zero_dwords(i as nat),
        decreases n - i,
    {
        write_u32(out, 0);
        i = i + 1;
        assert(out@ =~= old(out)@ + zero_dwords(i as nat));
    }
}

/// Write dwords with all bits set.
pub fn write_ones_dwords(out: &mut Vec<u8>, n: usize)
    ensures
        final(out)@ == old(out)@ + ones_dwords(n as nat),
{
    let mut i: usize = 0;
    assert(old(out)@ + ones_dwords(0) =~= old(out)@);
    while i < n
        invariant
            i <= n,
            out@ == old(out)@ + ones_dwords(i as nat),
        decreases n - i,
    {
        write_u32(out, 0xffff_ffff);
        i = i + 1;
        assert(out@ =~= old(out)@ + ones_dwords(i as nat));
    }
}

/// The time, opcode and size field at the start of an instruction.
pub open spec fn take_header(s: Seq<u8>) -> Parsed<(i32, u16, u16)> {
    match take_u32(s) {
        Err(e) => Err(e),
        Ok((time, s)) => match take_u16(s) {
            Err(e) => Err(e),
            Ok((opcode, s)) => match take_u16(s) {
                Err(e) => Err(e),
                Ok((size, s)) => Ok(((time as i32, opcode, size), s)),
            },
        },
    }
}

pub open spec fn header_bytes(time: i32, opcode: u16, size: u16) -> Seq<u8> {
    u32_bytes(time as u32) + u16_bytes(opcode) + u16_bytes(size)
}

fn read_header(f: &mut BinReader) -> (r: ReadResult<(i32, u16, u16)>)
    requires
        old(f).wf(),
    ensures
        final(f).wf(),
        final(f).bytes == old(f).bytes,
        reads_as(r, final(f).rest(), take_header(old(f).rest())),
{
    let time: u32 = match f.read_u32() {
        Ok(x) => x,
        Err(e) => return Err(e),
    };
    let opcode: u16 = match f.read_u16() {
        Ok(x) => x,
        Err(e) => return Err(e),
    };
    let size: u16 = match f.read_u16() {
        Ok(x) => x,
        Err(e) => return Err(e),
    };
    Ok((time as i32, opcode, size))
}

fn write_header(out: &mut Vec<u8>, time: i32, opcode: u16, size: u16)
    ensures
        final(out)@ == old(out)@ + header_bytes(time, opcode, size),
{
    write_u32(out, time as u32);
    write_u16(out, opcode);
    write_u16(out, size);
    assert(out@ =~= old(out)@ + header_bytes(time, opcode, size));
}

proof fn lemma_header_round_trip(time: i32, opcode: u16, size: u16, rest: Seq<u8>)
    ensures
        take_header(header_bytes(time, opcode, size) + rest) == Ok::<
            ((i32, u16, u16), Seq<u8>),
            ReadErrorKind,
        >(((time, opcode, size), rest)),
        header_bytes(time, opcode, size).len() == 8,
{
    lemma_u32_round_trip(time as u32, u16_bytes(opcode) + (u16_bytes(size) + rest));
    lemma_u16_round_trip(opcode, u16_bytes(size) + rest);
    lemma_u16_round_trip(size, rest);
    assert(header_bytes(time, opcode, size) + rest =~= u32_bytes(time as u32) + (u16_bytes(opcode)
        + (u16_bytes(size) + rest)));
    assert((time as u32) as i32 == time) by (bit_vector);
}

/// The end marker of a script is read as one.
proof fn lemma_terminal(rest: Seq<u8>)
    ensures
        take_header(ones_dwords(5) + rest) matches Ok(((_, opcode, _), _)) && opcode == 0xffff,
{
    reveal_with_fuel(ones_dwords, 6);
    let tail = u32_bytes(0xffff_ffff) + u32_bytes(0xffff_ffff) + u32_bytes(0xffff_ffff) + rest;
    assert(u32_bytes(0xffff_ffff) =~= u16_bytes(0xffff) + u16_bytes(0xffff));
    let time: i32 = 0xffff_ffffu32 as i32;
    assert((0xffff_ffffu32 as i32) as u32 == 0xffff_ffffu32) by (bit_vector);
    assert(ones_dwords(5) + rest =~= header_bytes(time, 0xffff, 0xffff) + tail);
    lemma_header_round_trip(time, 0xffff, 0xffff, tail);
}

proof fn lemma_no_vars_mask(args: Seq<InstrArgV>)
    requires
        no_vars(args),
    ensures
        param_mask(args) == 0,
        all_raw(args),
    decreases args.len(),
{
    if args.len() > 0 {
        let tail = args.skip(1);
        assert forall|i: int| 0 <= i < tail.len() implies (#[trigger] tail[i]) is Raw
            && !tail[i]->Raw_0.is_var by {
            assert(tail[i] == args[i + 1]);
        }
        lemma_no_vars_mask(tail);
        assert(args[0] is Raw);
    }
    assert forall|i: int| 0 <= i < args.len() implies (#[trigger] args[i]) is Raw by {}
}

proof fn lemma_take_args_len(s: Seq<u8>, n: nat, mask: nat)
    ensures
        take_args(s, n, mask) matches Ok((args, rest)) ==> args.len() == n && s.len() == rest.len()
            + 4 * n && all_raw(args),
    decreases n,
{
    if n > 0 {
        match take_u32(s) {
            Ok((bits, rest)) => {
                lemma_take_args_len(rest, (n - 1) as nat, mask / 2);
            },
            Err(_) => {},
        }
    }
}

/// An empty mask has no unused bits.
proof fn lemma_empty_mask(given: Seq<Warning>)
    ensures
        forall|nargs: nat| #[trigger] mask_warnings(0, nargs) == Seq::<Warning>::empty(),
        given + seq![] == given,
{
    assert forall|nargs: nat| #[trigger]
        mask_warnings(0, nargs) == Seq::<Warning>::empty() by {
        lemma_pow2_pos(nargs);
    }
    assert(given + seq![] =~= given);
}

impl InstrFormat for InstrFormat06 {
    open spec fn instr_size_spec(&self, instr: InstrV) -> nat {
        20
    }

    open spec fn pairs_spec(&self) -> Seq<(IntrinsicInstrKind, u16)> {
        if Game::Th07.rank() <= self.game.rank() <= Game::Th09.rank() {
            seq![(IntrinsicInstrKind::Jmp, 4u16), (IntrinsicInstrKind::InterruptLabel, 31u16)]
        } else {
            seq![]
        }
    }

    /// Missing arguments are padded with zeros.
    open spec fn instr_bytes(&self, instr: InstrV) -> Seq<u8> {
        let padding: nat = if instr.args.len() < 3 {
            (3 - instr.args.len()) as nat
        } else {
            0
        };
        header_bytes(instr.time, instr.opcode, 12) + args_bytes(instr.args) + zero_dwords(padding)
    }

    open spec fn terminal_bytes(&self) -> Seq<u8> {
        ones_dwords(5)
    }

    open spec fn take_instr(&self, s: Seq<u8>) -> Parsed<Option<InstrV>> {
        match take_header(s) {
            Err(e) => Err(e),
            Ok(((time, opcode, size), s)) => if opcode == 0xffff {
                Ok((None, s))
            } else if size != 12 {
                Err(ReadErrorKind::BadInstrSize { size })
            } else {
                match take_args_upto_size(s, 12, 0) {
                    Err(e) => Err(e),
                    Ok((args, s)) => Ok((Some(InstrV { time, opcode, args }), s)),
                }
            },
        }
    }

    /// No mask is stored in these scripts, so none has unused bits.
    open spec fn instr_warnings(&self, s: Seq<u8>) -> Seq<Warning> {
        seq![]
    }

    open spec fn writable(&self, instr: InstrV) -> bool {
        instr.opcode != 0xffff && instr.args.len() == 3 && no_vars(instr.args)
    }

    open spec fn general_use_regs_spec(&self, ty: ScalarType) -> Seq<i32> {
        seq![]
    }

    open spec fn jump_has_time_arg_spec(&self) -> bool {
        true
    }

    open spec fn terminating_spec(&self, opcode: u16) -> bool {
        false
    }

    open spec fn encodable(&self, offset: nat) -> bool {
        offset % 20 == 0
    }

    open spec fn decodable(&self, bits: u32) -> bool {
        bits * 20 <= u32::MAX
    }

    open spec fn encode_label_spec(&self, offset: nat) -> u32 {
        (offset / 20) as u32
    }

    open spec fn decode_label_spec(&self, bits: u32) -> nat {
        (bits * 20) as nat
    }

    proof fn lemma_offsets(&self, offset: nat, instr: InstrV) {
    }

    proof fn lemma_take_size(&self, s: Seq<u8>) {
        match take_header(s) {
            Ok((_, rest)) => {
                lemma_take_args_len(rest, 3, 0);
            },
            Err(_) => {},
        }
    }

    proof fn lemma_round_trip(&self, instr: InstrV, rest: Seq<u8>) {
        lemma_terminal(rest);
        if self.writable(instr) {
            lemma_header_round_trip(instr.time, instr.opcode, 12, args_bytes(instr.args) + rest);
            lemma_no_vars_mask(instr.args);
            law_args_round_trip(instr.args, rest);
            assert(self.instr_bytes(instr) + rest =~= header_bytes(instr.time, instr.opcode, 12) + (
            args_bytes(instr.args) + rest));
        }
    }

    fn instr_size(&self, instr: &Instr) -> (r: usize) {
        20
    }

    fn checked_instr_size(&self, instr: &Instr) -> (r: Option<usize>) {
        Some(20)
    }

    fn intrinsic_opcode_pairs(&self) -> (r: Vec<(IntrinsicInstrKind, u16)>) {
        let r = if self.game.since(Game::Th07) && Game::Th09.since(self.game) {
            vec![(IntrinsicInstrKind::Jmp, 4u16), (IntrinsicInstrKind::InterruptLabel, 31u16)]
        } else {
            Vec::new()
        };
        assert(r@ =~= self.pairs_spec());
        r
    }

    fn read_instr(&self, f: &mut BinReader, warnings: &mut Vec<Warning>) -> (r: ReadResult<
        Option<Instr>,
    >) {
        proof {
            lemma_empty_mask(warnings@);
        }
        let (time, opcode, size) = match read_header(f) {
            Ok(x) => x,
            Err(e) => return Err(e),
        };
        if opcode == 0xffff {
            return Ok(None);
        }
        if size != 12 {
            return Err(ReadErrorKind::BadInstrSize { size });
        }
        match read_dword_args_upto_size(f, 12, 0, warnings) {
            Ok(args) => Ok(Some(Instr { time, opcode, args })),
            Err(e) => Err(e),
        }
    }

    fn write_instr(&self, out: &mut Vec<u8>, instr: &Instr) {
        // this version writes argsize rather than instr size
        write_header(out, instr.time, instr.opcode, 12);
        write_dword_args(out, &instr.args);
        if instr.args.len() < 3 {
            // padding args
            write_zero_dwords(out, 3 - instr.args.len());
        }
        assert(out@ =~= old(out)@ + self.instr_bytes(instr@));
    }

    fn write_terminal_instr(&self, out: &mut Vec<u8>) {
        write_ones_dwords(out, 5);
    }

    fn general_use_regs(&self, ty: ScalarType) -> (r: Vec<i32>) {
        Vec::new()
    }

    fn jump_has_time_arg(&self) -> (r: bool) {
        true
    }

    fn is_th06_anm_terminating_instr(&self, opcode: u16) -> (r: bool) {
        false
    }

    fn encode_label(&self, offset: usize) -> (r: u32) {
        (offset / 20) as u32
    }

    fn decode_label(&self, bits: u32) -> (r: usize) {
        (bits * 20) as usize
    }

    fn can_decode_label(&self, bits: u32) -> (r: bool) {
        bits <= u32::MAX / 20
    }
}

/// The size of an instruction with a number of arguments, as far as 16 bits hold it.
pub open spec fn size_field(nargs: nat) -> u16 {
    ((8 + 4 * nargs) % 0x1_0000) as u16
}

impl InstrFormat for InstrFormat10 {
    open spec fn instr_size_spec(&self, instr: InstrV) -> nat {
        8 + 4 * instr.args.len()
    }

    open spec fn pairs_spec(&self) -> Seq<(IntrinsicInstrKind, u16)> {
        // TH095 and TH10 are missing the interrupt label
        if self.game.rank() >= Game::Th11.rank() {
            seq![(IntrinsicInstrKind::Jmp, 1u16), (IntrinsicInstrKind::InterruptLabel, 16u16)]
        } else {
            seq![(IntrinsicInstrKind::Jmp, 1u16)]
        }
    }

    /// The size is cut to 16 bits.
    open spec fn instr_bytes(&self, instr: InstrV) -> Seq<u8> {
        header_bytes(instr.time, instr.opcode, size_field(instr.args.len()))
            + args_bytes(instr.args)
    }

    open spec fn terminal_bytes(&self) -> Seq<u8> {
        ones_dwords(5)
    }

    open spec fn take_instr(&self, s: Seq<u8>) -> Parsed<Option<InstrV>> {
        match take_header(s) {
            Err(e) => Err(e),
            Ok(((time, opcode, size), s)) => if opcode == 0xffff {
                Ok((None, s))
            } else if size < 8 {
                Err(ReadErrorKind::BadInstrSize { size })
            } else {
                match take_args_upto_size(s, (size - 8) as usize, 0) {
                    Err(e) => Err(e),
                    Ok((args, s)) => Ok((Some(InstrV { time, opcode, args }), s)),
                }
            },
        }
    }

    /// No mask is stored in these scripts, so none has unused bits.
    open spec fn instr_warnings(&self, s: Seq<u8>) -> Seq<Warning> {
        seq![]
    }

    open spec fn writable(&self, instr: InstrV) -> bool {
        instr.opcode != 0xffff && 8 + 4 * instr.args.len() <= u16::MAX && no_vars(instr.args)
    }

    open spec fn general_use_regs_spec(&self, ty: ScalarType) -> Seq<i32> {
        seq![]
    }

    open spec fn jump_has_time_arg_spec(&self) -> bool {
        true
    }

    open spec fn terminating_spec(&self, opcode: u16) -> bool {
        false
    }

    open spec fn encodable(&self, offset: nat) -> bool {
        true
    }

    open spec fn decodable(&self, bits: u32) -> bool {
        true
    }

    open spec fn encode_label_spec(&self, offset: nat) -> u32 {
        (offset as usize) as u32
    }

    open spec fn decode_label_spec(&self, bits: u32) -> nat {
        bits as nat
    }

    proof fn lemma_offsets(&self, offset: nat, instr: InstrV) {
    }

    proof fn lemma_take_size(&self, s: Seq<u8>) {
        match take_header(s) {
            Ok(((_, _, size), rest)) => {
                if size >= 8 {
                    lemma_take_args_len(rest, (((size - 8) as usize) / 4) as nat, 0);
                }
            },
            Err(_) => {},
        }
    }

    proof fn lemma_round_trip(&self, instr: InstrV, rest: Seq<u8>) {
        lemma_terminal(rest);
        if self.writable(instr) {
            let size = size_field(instr.args.len());
            lemma_header_round_trip(instr.time, instr.opcode, size, args_bytes(instr.args) + rest);
            lemma_no_vars_mask(instr.args);
            law_args_round_trip(instr.args, rest);
            assert(size == 8 + 4 * instr.args.len());
            assert(self.instr_bytes(instr) + rest =~= header_bytes(instr.time, instr.opcode, size)
                + (args_bytes(instr.args) + rest));
        }
    }

    fn instr_size(&self, instr: &Instr) -> (r: usize) {
        assert(instr@.args.len() == instr.args@.len());
        8 + 4 * instr.args.len()
    }

    fn checked_instr_size(&self, instr: &Instr) -> (r: Option<usize>) {
        assert(instr@.args.len() == instr.args@.len());
        match instr.args.len().checked_mul(4) {
            Some(size) => size.checked_add(8),
            None => None,
        }
    }

    fn intrinsic_opcode_pairs(&self) -> (r: Vec<(IntrinsicInstrKind, u16)>) {
        let mut out = vec![(IntrinsicInstrKind::Jmp, 1u16)];

        // TH095 and TH10 are missing this
        if self.game.since(Game::Th11) {
            out.push((IntrinsicInstrKind::InterruptLabel, 16u16));
        }
        assert(out@ =~= self.pairs_spec());
        out
    }

    fn read_instr(&self, f: &mut BinReader, warnings: &mut Vec<Warning>) -> (r: ReadResult<
        Option<Instr>,
    >) {
        proof {
            lemma_empty_mask(warnings@);
        }
        let (time, opcode, size) = match read_header(f) {
            Ok(x) => x,
            Err(e) => return Err(e),
        };
        if opcode == 0xffff {
            return Ok(None);
        }
        if size < 8 {
            return Err(ReadErrorKind::BadInstrSize { size });
        }
        match read_dword_args_upto_size(f, (size - 8) as usize, 0, warnings) {
            Ok(args) => Ok(Some(Instr { time, opcode, args })),
            Err(e) => Err(e),
        }
    }

    fn write_instr(&self, out: &mut Vec<u8>, instr: &Instr) {
        let nargs: usize = instr.args.len() % 0x4000;
        let size: u16 = ((8 + 4 * nargs) % 0x1_0000) as u16;
        assert(size == size_field(instr@.args.len())) by {
            assert(instr@.args.len() == instr.args@.len());
        }
        write_header(out, instr.time, instr.opcode, size);
        write_dword_args(out, &instr.args);
        assert(out@ =~= old(out)@ + self.instr_bytes(instr@));
    }

    fn write_terminal_instr(&self, out: &mut Vec<u8>) {
        write_ones_dwords(out, 5);
    }

    fn general_use_regs(&self, ty: ScalarType) -> (r: Vec<i32>) {
        Vec::new()
    }

    fn jump_has_time_arg(&self) -> (r: bool) {
        true
    }

    fn is_th06_anm_terminating_instr(&self, opcode: u16) -> (r: bool) {
        false
    }

    fn encode_label(&self, offset: usize) -> (r: u32) {
        offset as u32
    }

    fn decode_label(&self, bits: u32) -> (r: usize) {
        bits as usize
    }

    fn can_decode_label(&self, bits: u32) -> (r: bool) {
        true
    }
}

/// A label in an early script is read back as the offset that was written, as long as offsets
/// fit into 32 bits.
pub proof fn law_label_round_trip_06(format: InstrFormat06, offset: nat)
    requires
        format.encodable(offset),
        offset <= u32::MAX,
    ensures
        format.decodable(format.encode_label_spec(offset)),
        format.decode_label_spec(format.encode_label_spec(offset)) == offset,
{
}

/// A label in a later script is read back as the offset that was written, as long as offsets
/// fit into 32 bits.
pub proof fn law_label_round_trip_10(format: InstrFormat10, offset: nat)
    requires
        offset <= u32::MAX,
    ensures
        format.decodable(format.encode_label_spec(offset)),
        format.decode_label_spec(format.encode_label_spec(offset)) == offset,
{
}

// =============================================================================

/// What keeps a STD file from being written, with names of type `N`.
#[derive(Debug)]
pub enum WriteError<N> {
    /// "string too long (max 127 bytes)"
    StringTooLong { len: usize },
    /// "No object named {}"
    NoSuchObject { name: N },
}

/// Data without the zeros at its end.
pub open spec fn strip_zeros(s: Seq<u8>) -> Seq<u8>
    decreases s.len(),
{
    if s.len() > 0 && s.last() == 0 {
        strip_zeros(s.drop_last())
    } else {
        s
    }
}

pub open spec fn zeros(n: nat) -> Seq<u8> {
    Seq::new(n, |i: int| 0u8)
}

/// A string in a field of 128 bytes.
pub open spec fn take_string_128(s: Seq<u8>) -> Parsed<Seq<u8>> {
    match take_bytes(s, 128) {
        Err(e) => Err(e),
        Ok((field, rest)) => Ok((strip_zeros(field), rest)),
    }
}

/// The field of 128 bytes that holds a string.
pub open spec fn string_128_bytes(s: Seq<u8>) -> Result<Seq<u8>, WriteError<Seq<char>>> {
    if s.len() >= 128 {
        Err(WriteError::StringTooLong { len: s.len() as usize })
    } else {
        Ok(s + zeros((128 - s.len()) as nat))
    }
}

/// Whether a string survives being written to a field of 128 bytes.
pub open spec fn fits_128(s: Seq<u8>) -> bool {
    s.len() < 128 && (s.len() > 0 ==> s.last() != 0)
}

pub fn read_string_128(f: &mut BinReader) -> (r: ReadResult<Vec<u8>>)
    requires
        old(f).wf(),
    ensures
        final(f).wf(),
        final(f).bytes == old(f).bytes,
        match take_string_128(old(f).rest()) {
            Ok((s, rest)) => r matches Ok(v) && v@ == s && final(f).rest() == rest,
            Err(e) => r matches Err(k) && k == e,
        },
{
    let mut out = match f.read_exact(128) {
        Ok(x) => x,
        Err(e) => return Err(e),
    };
    let ghost field = out@;
    while out.len() > 0 && out[out.len() - 1] == 0
        invariant
            strip_zeros(field) == strip_zeros(out@),
        decreases out@.len(),
    {
        let ghost before = out@;
        out.pop();
        assert(out@ =~= before.drop_last());
    }
    Ok(out)
}

pub fn write_string_128(out: &mut Vec<u8>, s: &Vec<u8>) -> (r: Result<(), WriteError<
    Ident,
>>)
    ensures
        match string_128_bytes(s@) {
            Ok(bytes) => r is Ok && final(out)@ == old(out)@ + bytes,
            Err(WriteError::StringTooLong { len }) => r matches Err(
                WriteError::StringTooLong { len: l },
            ) && l == len && final(out)@ == old(out)@,
            Err(_) => false,
        },
{
    if s.len() >= 128 {
        return Err(WriteError::StringTooLong { len: s.len() });
    }
    write_bytes(out, s.as_slice());
    let n: usize = 128 - s.len();
    let mut i: usize = 0;
    assert(out@ =~= old(out)@ + s@ + zeros(0));
    while i < n
        invariant
            i <= n,
            out@ == old(out)@ + s@ + zeros(i as nat),
        decreases n - i,
    {
        out.push(0);
        i = i + 1;
        assert(out@ =~= old(out)@ + s@ + zeros(i as nat));
    }
    assert(out@ =~= old(out)@ + (s@ + zeros(n as nat)));
    Ok(())
}

proof fn lemma_strip_zeros(s: Seq<u8>, n: nat)
    requires
        s.len() > 0 ==> s.last() != 0,
    ensures
        strip_zeros(s + zeros(n)) == s,
    decreases n,
{
    if n == 0 {
        assert(s + zeros(0) =~= s);
    } else {
        let t = s + zeros(n);
        assert(t.last() == 0);
        assert(t.drop_last() =~= s + zeros((n - 1) as nat));
        lemma_strip_zeros(s, (n - 1) as nat);
    }
}

/// A string of at most 127 bytes that does not end with a zero is read back as it was written.
pub proof fn law_string_128_round_trip(s: Seq<u8>, rest: Seq<u8>)
    requires
        fits_128(s),
    ensures
        string_128_bytes(s) matches Ok(bytes) && bytes.len() == 128 && take_string_128(bytes + rest)
            == Ok::<(Seq<u8>, Seq<u8>), ReadErrorKind>((s, rest)),
{
    let bytes = s + zeros((128 - s.len()) as nat);
    assert((bytes + rest).take(128) =~= bytes);
    assert((bytes + rest).skip(128) =~= rest);
    lemma_strip_zeros(s, (128 - s.len()) as nat);
}

/// The strings of the first `n` fields.
pub open spec fn take_strings(s: Seq<u8>, n: nat) -> Parsed<Seq<Seq<u8>>>
    decreases n,
{
    if n == 0 {
        Ok((seq![], s))
    } else {
        match take_strings(s, (n - 1) as nat) {
            Err(e) => Err(e),
            Ok((done, rest)) => match take_string_128(rest) {
                Err(e) => Err(e),
                Ok((x, rest)) => Ok((done.push(x), rest)),
            },
        }
    }
}

/// The fields of the first `n` strings.
pub open spec fn strings_bytes(ss: Seq<Seq<u8>>, n: nat) -> Result<Seq<u8>, WriteError<Seq<char>>>
    decreases n,
{
    if n == 0 {
        Ok(seq![])
    } else {
        match strings_bytes(ss, (n - 1) as nat) {
            Err(e) => Err(e),
            Ok(done) => match string_128_bytes(ss[n - 1]) {
                Err(e) => Err(e),
                Ok(bytes) => Ok(done + bytes),
            },
        }
    }
}

/// The fields of those of the first `n` strings that stand before the first one that is too long.
pub open spec fn strings_written(ss: Seq<Seq<u8>>, n: nat) -> Seq<u8>
    decreases n,
{
    match strings_bytes(ss, n) {
        Ok(bytes) => bytes,
        Err(_) => if n == 0 {
            seq![]
        } else {
            strings_written(ss, (n - 1) as nat)
        },
    }
}

proof fn lemma_strings_round_trip(ss: Seq<Seq<u8>>, n: nat, rest: Seq<u8>)
    requires
        n <= ss.len(),
        forall|i: int| 0 <= i < n ==> fits_128(#[trigger] ss[i]),
    ensures
        strings_bytes(ss, n) matches Ok(bytes) && bytes.len() == 128 * n && take_strings(
            bytes + rest,
            n,
        ) == Ok::<(Seq<Seq<u8>>, Seq<u8>), ReadErrorKind>((ss.take(n as int), rest)),
    decreases n,
{
    if n == 0 {
        assert(seq![] + rest =~= rest);
        assert(ss.take(0) =~= seq![]);
    } else {
        assert(fits_128(ss[n - 1]));
        law_string_128_round_trip(ss[n - 1], rest);
        let last = string_128_bytes(ss[n - 1])->Ok_0;
        lemma_strings_round_trip(ss, (n - 1) as nat, last + rest);
        let before = strings_bytes(ss, (n - 1) as nat)->Ok_0;
        assert((before + last) + rest =~= before + (last + rest));
        assert(ss.take(n as int) =~= ss.take(n - 1).push(ss[n - 1]));
    }
}

/// The strings of the header, in the order in which they are written.
pub open spec fn th06_strings(x: ExtraV) -> Seq<Seq<u8>> {
    let bgm = x->bgm;
    seq![
        x->stage_name,
        bgm[0].name,
        bgm[1].name,
        bgm[2].name,
        bgm[3].name,
        bgm[0].path,
        bgm[1].path,
        bgm[2].path,
        bgm[3].path,
    ]
}

/// The header that has these strings.
pub open spec fn th06_extra(ss: Seq<Seq<u8>>) -> ExtraV {
    ExtraV::Th06 {
        stage_name: ss[0],
        bgm: seq![
            BgmV { name: ss[1], path: ss[5] },
            BgmV { name: ss[2], path: ss[6] },
            BgmV { name: ss[3], path: ss[7] },
            BgmV { name: ss[4], path: ss[8] },
        ],
    }
}

/// The STD files of some of the games.
pub trait FileFormat {
    type Instrs: InstrFormat;

    spec fn instr_format_spec(&self) -> Self::Instrs;

    /// Whether a header is of this format.
    spec fn accepts(&self, x: ExtraV) -> bool;

    spec fn take_extra(&self, s: Seq<u8>) -> Parsed<ExtraV>;

    spec fn extra_bytes(&self, x: ExtraV) -> Result<Seq<u8>, WriteError<Seq<char>>>;

    /// As much of a header as is written before the first string that is too long.
    spec fn extra_written(&self, x: ExtraV) -> Seq<u8>;

    /// Whether the strings of a header survive being written.
    spec fn extra_fits(&self, x: ExtraV) -> bool;

    /// A header is read back as it was written.
    proof fn lemma_extra_round_trip(&self, x: ExtraV, rest: Seq<u8>)
        requires
            self.accepts(x),
            self.extra_fits(x),
        ensures
            self.extra_bytes(x) matches Ok(bytes) && self.take_extra(bytes + rest) == Ok::<
                (ExtraV, Seq<u8>),
                ReadErrorKind,
            >((x, rest)),
    ;

    /// Only strings can keep a header from being written, and what is read is of this format.
    proof fn lemma_extra(&self, x: ExtraV, s: Seq<u8>)
        ensures
            self.extra_bytes(x) matches Err(e) ==> e is StringTooLong,
            self.take_extra(s) matches Ok((y, _)) ==> self.accepts(y),
    ;

    fn read_extra(&self, f: &mut BinReader) -> (r: ReadResult<StdExtra>)
        requires
            old(f).wf(),
        ensures
            final(f).wf(),
            final(f).bytes == old(f).bytes,
            match self.take_extra(old(f).rest()) {
                Ok((x, rest)) => r matches Ok(v) && v@ == x && final(f).rest() == rest,
                Err(e) => r matches Err(k) && k == e,
            },
    ;

    fn write_extra(&self, out: &mut Vec<u8>, x: &StdExtra) -> (r: Result<
        (),
        WriteError<Ident>,
    >)
        requires
            self.accepts(x@),
        ensures
            match self.extra_bytes(x@) {
                Ok(bytes) => r is Ok && final(out)@ == old(out)@ + bytes,
                Err(e) => r matches Err(k) && write_error_view(k) == e && final(out)@ == old(out)@
                    + self.extra_written(x@),
            },
    ;

    /// The header that the fields of a `meta` section describe.
    spec fn extra_from_meta_spec(&self, fields: Sp<FieldsV>) -> Result<ExtraV, MetaErrorV>;

    /// The names of the fields that describe a header.
    spec fn extra_field_names(&self) -> Seq<Seq<char>>;

    /// The fields that describe a header.
    spec fn extra_to_meta_spec(&self, x: ExtraV) -> FieldsV;

    /// Whether the strings of a header are UTF-8.
    spec fn extra_is_text(&self, x: ExtraV) -> bool;

    /// A header is found again among fields that hold its own.
    proof fn lemma_extra_meta_round_trip(&self, x: ExtraV, fields: Sp<FieldsV>)
        requires
            self.accepts(x),
            self.extra_is_text(x),
            forall|i: int|
                0 <= i < self.extra_to_meta_spec(x).len() ==> get_field_spec(
                    fields.value,
                    (#[trigger] self.extra_to_meta_spec(x)[i]).0.value,
                ) == Some(self.extra_to_meta_spec(x)[i].1),
        ensures
            self.extra_from_meta_spec(fields) == Ok::<ExtraV, MetaErrorV>(x),
    ;

    /// The fields of a header have these names, which differ from one another and from those of
    /// the other fields of a file.
    proof fn lemma_extra_names(&self, x: ExtraV)
        ensures
            field_names(self.extra_to_meta_spec(x)) == self.extra_field_names(),
            (seq!["unknown"@] + self.extra_field_names() + seq![
                "objects"@,
                "instances"@,
            ]).no_duplicates(),
    ;

    /// The fields of a header are made of literals.
    proof fn lemma_extra_is_literal(&self, x: ExtraV)
        ensures
            literal_fields(self.extra_to_meta_spec(x), self.extra_to_meta_spec(x).len()),
    ;

    /// What is read from a `meta` section is of this format.
    proof fn lemma_extra_from_meta(&self, fields: Sp<FieldsV>)
        ensures
            self.extra_from_meta_spec(fields) matches Ok(x) ==> self.accepts(x),
    ;

    fn extra_from_meta(&self, m: &mut ParseObject) -> (r: Result<StdExtra, MetaError>)
        ensures
            final(m).fields == old(m).fields,
            match self.extra_from_meta_spec(old(m).view_fields()) {
                Ok(x) => r matches Ok(v) && v@ == x && final(m).view_used() == old(m).view_used()
                    + self.extra_field_names(),
                Err(e) => r matches Err(k) && from_meta_error_view(k) == e,
            },
    ;

    fn extra_to_meta(&self, extra: &StdExtra, b: &mut BuildObject)
        requires
            self.accepts(extra@),
        ensures
            final(b).built() == old(b).built() + self.extra_to_meta_spec(extra@),
    ;

    fn instr_format(&self) -> (r: &Self::Instrs)
        ensures
            *r == self.instr_format_spec(),
    ;

    /// Whether quads can be strips in these games.
    spec fn has_strips_spec(&self) -> bool;

    /// Tell whether quads can be strips in these games.
    fn has_strips(&self) -> (r: bool)
        ensures
            r == self.has_strips_spec(),
    ;
}

pub open spec fn write_error_view(e: WriteError<Ident>) -> WriteError<Seq<char>> {
    match e {
        WriteError::StringTooLong { len } => WriteError::StringTooLong { len },
        WriteError::NoSuchObject { name } => WriteError::NoSuchObject { name: name@ },
    }
}

/// STD format, EoSD to PoFV.
#[derive(Debug, Copy, Clone)]
pub struct FileFormat06 {
    pub has_strips: bool,
    pub instr_format: InstrFormat06,
}

/// STD format, StB to present.
#[derive(Debug, Copy, Clone)]
pub struct FileFormat10 {
    pub instr_format: InstrFormat10,
}

impl FileFormat for FileFormat06 {
    type Instrs = InstrFormat06;

    open spec fn instr_format_spec(&self) -> InstrFormat06 {
        self.instr_format
    }

    open spec fn accepts(&self, x: ExtraV) -> bool {
        x is Th06 && x->bgm.len() == 4
    }

    open spec fn take_extra(&self, s: Seq<u8>) -> Parsed<ExtraV> {
        match take_strings(s, 9) {
            Err(e) => Err(e),
            Ok((ss, rest)) => Ok((th06_extra(ss), rest)),
        }
    }

    open spec fn extra_bytes(&self, x: ExtraV) -> Result<Seq<u8>, WriteError<Seq<char>>> {
        strings_bytes(th06_strings(x), 9)
    }

    open spec fn extra_written(&self, x: ExtraV) -> Seq<u8> {
        strings_written(th06_strings(x), 9)
    }

    open spec fn extra_fits(&self, x: ExtraV) -> bool {
        forall|i: int| 0 <= i < 9 ==> fits_128(#[trigger] th06_strings(x)[i])
    }

    proof fn lemma_extra_round_trip(&self, x: ExtraV, rest: Seq<u8>) {
        let ss = th06_strings(x);
        lemma_strings_round_trip(ss, 9, rest);
        assert(ss.take(9) =~= ss);
        assert(th06_extra(ss)->bgm =~= x->bgm);
    }

    proof fn lemma_extra(&self, x: ExtraV, s: Seq<u8>) {
        lemma_strings_error(th06_strings(x), 9);
    }

    fn read_extra(&self, f: &mut BinReader) -> (r: ReadResult<StdExtra>) {
        proof {
            reveal_with_fuel(take_strings, 10);
        }
        let stage_name = match read_string_128(f) {
            Ok(x) => x,
            Err(e) => return Err(e),
        };
        let name0 = match read_string_128(f) {
            Ok(x) => x,
            Err(e) => return Err(e),
        };
        let name1 = match read_string_128(f) {
            Ok(x) => x,
            Err(e) => return Err(e),
        };
        let name2 = match read_string_128(f) {
            Ok(x) => x,
            Err(e) => return Err(e),
        };
        let name3 = match read_string_128(f) {
            Ok(x) => x,
            Err(e) => return Err(e),
        };
        let path0 = match read_string_128(f) {
            Ok(x) => x,
            Err(e) => return Err(e),
        };
        let path1 = match read_string_128(f) {
            Ok(x) => x,
            Err(e) => return Err(e),
        };
        let path2 = match read_string_128(f) {
            Ok(x) => x,
            Err(e) => return Err(e),
        };
        let path3 = match read_string_128(f) {
            Ok(x) => x,
            Err(e) => return Err(e),
        };
        let bgm = [
            Std06Bgm { name: name0, path: path0 },
            Std06Bgm { name: name1, path: path1 },
            Std06Bgm { name: name2, path: path2 },
            Std06Bgm { name: name3, path: path3 },
        ];
        let out = StdExtra::Th06 { stage_name, bgm };
        proof {
            let ss = take_strings(old(f).rest(), 9)->Ok_0.0;
            assert(bgms_view(bgm@) =~= th06_extra(ss)->bgm);
        }
        Ok(out)
    }

    fn write_extra(&self, out: &mut Vec<u8>, x: &StdExtra) -> (r: Result<
        (),
        WriteError<Ident>,
    >) {
        match x {
            StdExtra::Th06 { stage_name, bgm } => {
                let ghost ss = th06_strings(x@);
                proof {
                    assert(ss[0] == stage_name@);
                    assert(bgms_view(bgm@).len() == 4);
                }
                let mut i: usize = 0;
                let ghost start = out@;
                assert(start + seq![] =~= start);
                while i < 9
                    invariant
                        i <= 9,
                        ss == th06_strings(x@),
                        x@ == (ExtraV::Th06 { stage_name: stage_name@, bgm: bgms_view(bgm@) }),
                        start == old(out)@,
                        strings_bytes(ss, i as nat) matches Ok(done) && out@ == start + done,
                    decreases 9 - i,
                {
                    let s: &Vec<u8> = if i == 0 {
                        stage_name
                    } else if i < 5 {
                        &bgm[i - 1].name
                    } else {
                        &bgm[i - 5].path
                    };
                    proof {
                        assert(ss[i as int] == s@);
                    }
                    let ghost done = strings_bytes(ss, i as nat)->Ok_0;
                    match write_string_128(out, s) {
                        Ok(_) => {},
                        Err(e) => {
                            proof {
                                assert(strings_written(ss, i as nat) == done);
                                lemma_strings_stop(ss, (i + 1) as nat, 9);
                            }
                            return Err(e);
                        },
                    }
                    proof {
                        let bytes = string_128_bytes(s@)->Ok_0;
                        assert(out@ =~= start + (done + bytes));
                    }
                    i = i + 1;
                }
                Ok(())
            },
            StdExtra::Th10 { .. } => Ok(()),
        }
    }

    open spec fn extra_from_meta_spec(&self, fields: Sp<FieldsV>) -> Result<ExtraV, MetaErrorV> {
        match bytes_field(fields, "stage_name"@) {
            Err(e) => Err(e),
            Ok(stage_name) => match list_field_of::<Std06Bgm>(fields, "bgm"@, 4) {
                Err(e) => Err(e),
                Ok(bgm) => Ok(ExtraV::Th06 { stage_name, bgm }),
            },
        }
    }

    open spec fn extra_field_names(&self) -> Seq<Seq<char>> {
        seq!["stage_name"@, "bgm"@]
    }

    open spec fn extra_to_meta_spec(&self, x: ExtraV) -> FieldsV {
        seq![
            built_field("stage_name"@, bytes_meta(x->stage_name)),
            built_field("bgm"@, list_meta::<Std06Bgm>(x->bgm)),
        ]
    }

    open spec fn extra_is_text(&self, x: ExtraV) -> bool {
        &&& valid_utf8(x->stage_name)
        &&& forall|i: int|
            0 <= i < 4 ==> valid_utf8((#[trigger] x->bgm[i]).name) && valid_utf8(x->bgm[i].path)
    }

    proof fn lemma_extra_meta_round_trip(&self, x: ExtraV, fields: Sp<FieldsV>) {
        let built = self.extra_to_meta_spec(x);
        assert(built[0] == built_field("stage_name"@, bytes_meta(x->stage_name)));
        assert(built[1] == built_field("bgm"@, list_meta::<Std06Bgm>(x->bgm)));
        law_bytes_round_trip(x->stage_name);
        assert forall|i: int| 0 <= i < x->bgm.len() implies Std06Bgm::from_meta_spec(
            sp_null(Std06Bgm::to_meta_spec(#[trigger] x->bgm[i])),
        ) == Ok::<BgmV, MetaErrorV>(x->bgm[i]) by {
            law_bgm_meta_round_trip(x->bgm[i]);
        }
        law_list_round_trip::<Std06Bgm>(x->bgm);
    }

    proof fn lemma_extra_is_literal(&self, x: ExtraV) {
        let built = self.extra_to_meta_spec(x);
        assert forall|i: int| 0 <= i < x->bgm.len() implies literal_meta(
            sp_null(Std06Bgm::to_meta_spec(#[trigger] x->bgm[i])),
        ) by {
            lemma_bgm_is_literal(x->bgm[i]);
        }
        lemma_literal_list::<Std06Bgm>(x->bgm);
        assert(literal_meta(sp_null(bytes_meta(x->stage_name))));
        assert forall|i: int| 0 <= i < built.len() implies literal_meta(
            (#[trigger] built[i]).1,
        ) by {
            if i == 0 {
                assert(built[0] == built_field("stage_name"@, bytes_meta(x->stage_name)));
            } else {
                assert(built[1] == built_field("bgm"@, list_meta::<Std06Bgm>(x->bgm)));
            }
        }
        lemma_literal_fields(built, built.len());
    }

    proof fn lemma_extra_names(&self, x: ExtraV) {
        reveal_strlit("unknown");
        reveal_strlit("stage_name");
        reveal_strlit("bgm");
        reveal_strlit("objects");
        reveal_strlit("instances");
        assert(field_names(self.extra_to_meta_spec(x)) =~= self.extra_field_names());
        let all = seq!["unknown"@] + self.extra_field_names() + seq!["objects"@, "instances"@];
        assert(all[0][0] == 'u');
        assert(all[1][0] == 's');
        assert(all[2][0] == 'b');
        assert(all[3][0] == 'o');
        assert(all[4][0] == 'i');
        assert(all.no_duplicates());
    }

    proof fn lemma_extra_from_meta(&self, fields: Sp<FieldsV>) {
        if let Ok(m) = expect_field_spec(fields, "bgm"@) {
            if let Ok(items) = meta_array_of(m, 4) {
                lemma_list_len::<Std06Bgm>(items, 4);
            }
        }
    }

    fn extra_from_meta(&self, m: &mut ParseObject) -> (r: Result<StdExtra, MetaError>) {
        let stage_name = match m.expect_bytes("stage_name") {
            Ok(x) => x,
            Err(e) => return Err(e),
        };
        let mut list: Vec<Std06Bgm> = match m.expect_list_of::<Std06Bgm>("bgm", 4) {
            Ok(x) => x,
            Err(e) => return Err(e),
        };
        proof {
            assert(m.view_used() =~= old(m).view_used() + self.extra_field_names());
        }
        let ghost read = list@;
        let bgm3 = list.remove(3);
        let bgm2 = list.remove(2);
        let bgm1 = list.remove(1);
        let bgm0 = list.remove(0);
        let bgm = [bgm0, bgm1, bgm2, bgm3];
        proof {
            assert(bgm@ =~= read);
            assert(bgms_view(bgm@) =~= values_view(read));
        }
        Ok(StdExtra::Th06 { stage_name, bgm })
    }

    fn extra_to_meta(&self, extra: &StdExtra, b: &mut BuildObject) {
        match extra {
            StdExtra::Th06 { stage_name, bgm } => {
                b.field("stage_name", make_bytes(stage_name));
                b.field("bgm", make_list(bgm.as_slice()));
                proof {
                    assert(values_view(bgm@) =~= bgms_view(bgm@));
                    assert(b.built() =~= old(b).built() + self.extra_to_meta_spec(extra@));
                }
            },
            StdExtra::Th10 { .. } => {},
        }
    }

    fn instr_format(&self) -> (r: &InstrFormat06) {
        &self.instr_format
    }

    open spec fn has_strips_spec(&self) -> bool {
        self.has_strips
    }

    fn has_strips(&self) -> (r: bool) {
        self.has_strips
    }
}

proof fn lemma_strings_stop(ss: Seq<Seq<u8>>, m: nat, n: nat)
    requires
        m <= n,
        strings_bytes(ss, m) is Err,
    ensures
        strings_bytes(ss, n) == strings_bytes(ss, m),
        strings_written(ss, n) == strings_written(ss, m),
    decreases n,
{
    if m < n {
        lemma_strings_stop(ss, m, (n - 1) as nat);
    }
}

proof fn lemma_strings_error(ss: Seq<Seq<u8>>, n: nat)
    ensures
        strings_bytes(ss, n) matches Err(e) ==> e is StringTooLong,
    decreases n,
{
    if n > 0 {
        lemma_strings_error(ss, (n - 1) as nat);
    }
}

impl FileFormat for FileFormat10 {
    type Instrs = InstrFormat10;

    open spec fn instr_format_spec(&self) -> InstrFormat10 {
        self.instr_format
    }

    open spec fn accepts(&self, x: ExtraV) -> bool {
        x is Th10
    }

    open spec fn take_extra(&self, s: Seq<u8>) -> Parsed<ExtraV> {
        match take_string_128(s) {
            Err(e) => Err(e),
            Ok((anm_path, rest)) => Ok((ExtraV::Th10 { anm_path }, rest)),
        }
    }

    open spec fn extra_bytes(&self, x: ExtraV) -> Result<Seq<u8>, WriteError<Seq<char>>> {
        string_128_bytes(x->anm_path)
    }

    /// There is only one string.
    open spec fn extra_written(&self, x: ExtraV) -> Seq<u8> {
        match string_128_bytes(x->anm_path) {
            Ok(bytes) => bytes,
            Err(_) => seq![],
        }
    }

    open spec fn extra_fits(&self, x: ExtraV) -> bool {
        fits_128(x->anm_path)
    }

    proof fn lemma_extra_round_trip(&self, x: ExtraV, rest: Seq<u8>) {
        law_string_128_round_trip(x->anm_path, rest);
    }

    proof fn lemma_extra(&self, x: ExtraV, s: Seq<u8>) {
    }

    fn read_extra(&self, f: &mut BinReader) -> (r: ReadResult<StdExtra>) {
        match read_string_128(f) {
            Ok(anm_path) => Ok(StdExtra::Th10 { anm_path }),
            Err(e) => Err(e),
        }
    }

    fn write_extra(&self, out: &mut Vec<u8>, x: &StdExtra) -> (r: Result<
        (),
        WriteError<Ident>,
    >) {
        match x {
            StdExtra::Th10 { anm_path } => {
                assert(out@ + seq![] =~= out@);
                write_string_128(out, anm_path)
            },
            StdExtra::Th06 { .. } => Ok(()),
        }
    }

    open spec fn extra_from_meta_spec(&self, fields: Sp<FieldsV>) -> Result<ExtraV, MetaErrorV> {
        match bytes_field(fields, "anm_path"@) {
            Err(e) => Err(e),
            Ok(anm_path) => Ok(ExtraV::Th10 { anm_path }),
        }
    }

    open spec fn extra_field_names(&self) -> Seq<Seq<char>> {
        seq!["anm_path"@]
    }

    open spec fn extra_to_meta_spec(&self, x: ExtraV) -> FieldsV {
        seq![built_field("anm_path"@, bytes_meta(x->anm_path))]
    }

    open spec fn extra_is_text(&self, x: ExtraV) -> bool {
        valid_utf8(x->anm_path)
    }

    proof fn lemma_extra_meta_round_trip(&self, x: ExtraV, fields: Sp<FieldsV>) {
        let built = self.extra_to_meta_spec(x);
        assert(built[0] == built_field("anm_path"@, bytes_meta(x->anm_path)));
        law_bytes_round_trip(x->anm_path);
    }

    proof fn lemma_extra_is_literal(&self, x: ExtraV) {
        let built = self.extra_to_meta_spec(x);
        assert(literal_meta(sp_null(bytes_meta(x->anm_path))));
        assert forall|i: int| 0 <= i < built.len() implies literal_meta(
            (#[trigger] built[i]).1,
        ) by {
            assert(built[0] == built_field("anm_path"@, bytes_meta(x->anm_path)));
        }
        lemma_literal_fields(built, built.len());
    }

    proof fn lemma_extra_names(&self, x: ExtraV) {
        reveal_strlit("unknown");
        reveal_strlit("anm_path");
        reveal_strlit("objects");
        reveal_strlit("instances");
        assert(field_names(self.extra_to_meta_spec(x)) =~= self.extra_field_names());
        let all = seq!["unknown"@] + self.extra_field_names() + seq!["objects"@, "instances"@];
        assert(all[0][0] == 'u');
        assert(all[1][0] == 'a');
        assert(all[2][0] == 'o');
        assert(all[3][0] == 'i');
        assert(all.no_duplicates());
    }

    proof fn lemma_extra_from_meta(&self, fields: Sp<FieldsV>) {
    }

    fn extra_from_meta(&self, m: &mut ParseObject) -> (r: Result<StdExtra, MetaError>) {
        match m.expect_bytes("anm_path") {
            Ok(anm_path) => {
                proof {
                    assert(m.view_used() =~= old(m).view_used() + self.extra_field_names());
                }
                Ok(StdExtra::Th10 { anm_path })
            },
            Err(e) => Err(e),
        }
    }

    fn extra_to_meta(&self, extra: &StdExtra, b: &mut BuildObject) {
        match extra {
            StdExtra::Th10 { anm_path } => {
                b.field("anm_path", make_bytes(anm_path));
                proof {
                    assert(b.built() =~= old(b).built() + self.extra_to_meta_spec(extra@));
                }
            },
            StdExtra::Th06 { .. } => {},
        }
    }

    fn instr_format(&self) -> (r: &InstrFormat10) {
        &self.instr_format
    }

    open spec fn has_strips_spec(&self) -> bool {
        false
    }

    fn has_strips(&self) -> (r: bool) {
        false
    }
}

/// The format of the STD files of one game.
#[derive(Debug, Copy, Clone)]
pub enum GameFormat {
    Early(FileFormat06),
    Late(FileFormat10),
}

pub open spec fn game_format_spec(game: Game) -> GameFormat {
    if game.rank() >= Game::Th095.rank() {
        GameFormat::Late(FileFormat10 { instr_format: InstrFormat10 { game } })
    } else {
        GameFormat::Early(
            FileFormat06 {
                has_strips: game is Th08 || game is Th09,
                instr_format: InstrFormat06 { game },
            },
        )
    }
}

/// Pick the format of a game.
pub fn game_format(game: Game) -> (r: GameFormat)
    ensures
        r == game_format_spec(game),
{
    if game.since(Game::Th095) {
        GameFormat::Late(FileFormat10 { instr_format: InstrFormat10 { game } })
    } else {
        let has_strips = match game {
            Game::Th08 | Game::Th09 => true,
            _ => false,
        };
        GameFormat::Early(FileFormat06 { has_strips, instr_format: InstrFormat06 { game } })
    }
}

} // verus!
