//! Little-endian binary data in memory.

use crate::float32::F32;
use vstd::prelude::*;

verus! {

/// What is wrong with binary data.
#[derive(Debug, Copy, Clone, PartialEq, Eq, Hash, Structural)]
#[allow(inconsistent_fields)]
pub enum ReadErrorKind {
    /// The data ends too soon.
    UnexpectedEof,
    /// "size not divisible by 4"
    SizeNotDivisible { size: usize },
    /// An instruction has a size that its format does not allow.
    BadInstrSize { size: u16 },
    /// "unexpected size for quad"
    QuadSize { kind: i16, size: u16 },
    /// "unknown quad type"
    QuadKind { kind: i16 },
    /// "unexpected data in quad index field"
    QuadIndex { index: u16 },
    /// "object index too large"
    ObjectIndex { index: u16, num_objects: usize },
    /// An offset points behind the end of the file.
    BadOffset { offset: u32 },
    /// The header gives another number of quads than the objects hold.
    QuadCount { expected: u16 },
    /// "script read past expected end"
    PastEnd { end: usize, now: usize },
}

/// An error in binary data, with the instruction in which it was found.
#[derive(Debug, Copy, Clone, PartialEq, Eq, Hash, Structural)]
pub struct ReadError {
    pub kind: ReadErrorKind,
    pub instr: Option<InstrPlace>,
}

/// An instruction of a script, by its index and by the offset of its first byte.
#[derive(Debug, Copy, Clone, PartialEq, Eq, Hash, Structural)]
pub struct InstrPlace {
    pub index: usize,
    pub offset: usize,
}

/// Something odd about binary data that does not keep it from being read or written.
#[derive(Debug, Copy, Clone, PartialEq, Eq, Hash, Structural)]
pub enum Warning {
    /// "original file is missing an end-of-script marker; one will be added on recompilation"
    MissingEndMarker,
    /// "unused bits in param_mask! (arg {arg} is a variable, but there are only {nargs} args!)"
    UnusedMaskBits { arg: usize, nargs: usize },
    /// "object has non-sequential id (expected {expected}, got {id})"
    NonSequentialId { expected: usize, id: u16 },
    /// "'strip' quads can only be used in TH08 and TH09!"
    StripQuad,
}

pub type ReadResult<T> = Result<T, ReadErrorKind>;

/// What a reader makes of data: a value and the data behind it, or an error.
pub type Parsed<T> = Result<(T, Seq<u8>), ReadErrorKind>;

pub open spec fn u16_bytes(x: u16) -> Seq<u8> {
    seq![(x % 0x100) as u8, (x / 0x100) as u8]
}

pub open spec fn u32_bytes(x: u32) -> Seq<u8> {
    seq![
        (x % 0x100) as u8,
        ((x / 0x100) % 0x100) as u8,
        ((x / 0x1_0000) % 0x100) as u8,
        (x / 0x100_0000) as u8,
    ]
}

pub open spec fn u16_of(s: Seq<u8>) -> u16 {
    (s[0] as int + 0x100 * s[1] as int) as u16
}

pub open spec fn u32_of(s: Seq<u8>) -> u32 {
    (s[0] as int + 0x100 * s[1] as int + 0x1_0000 * s[2] as int + 0x100_0000 * s[3] as int) as u32
}

pub open spec fn take_u16(s: Seq<u8>) -> Parsed<u16> {
    if s.len() < 2 {
        Err(ReadErrorKind::UnexpectedEof)
    } else {
        Ok((u16_of(s), s.skip(2)))
    }
}

pub open spec fn take_u32(s: Seq<u8>) -> Parsed<u32> {
    if s.len() < 4 {
        Err(ReadErrorKind::UnexpectedEof)
    } else {
        Ok((u32_of(s), s.skip(4)))
    }
}

pub open spec fn take_bytes(s: Seq<u8>, n: nat) -> Parsed<Seq<u8>> {
    if s.len() < n {
        Err(ReadErrorKind::UnexpectedEof)
    } else {
        Ok((s.take(n as int), s.skip(n as int)))
    }
}

/// Read `n` numbers.
pub open spec fn take_f32s(s: Seq<u8>, n: nat) -> Parsed<Seq<F32>>
    decreases n,
{
    if n == 0 {
        Ok((seq![], s))
    } else {
        match take_f32s(s, (n - 1) as nat) {
            Err(e) => Err(e),
            Ok((xs, rest)) => match take_u32(rest) {
                Err(e) => Err(e),
                Ok((bits, rest)) => Ok((xs.push(F32 { bits }), rest)),
            },
        }
    }
}

/// The bytes of a list of numbers.
pub open spec fn f32s_bytes(xs: Seq<F32>) -> Seq<u8>
    decreases xs.len(),
{
    if xs.len() == 0 {
        seq![]
    } else {
        f32s_bytes(xs.drop_last()) + u32_bytes(xs.last().bits)
    }
}

/// Whether a reader that had `before` in front of it did what a parser says:
/// it returned the value and moved on, or returned the error.
pub open spec fn reads_as<T>(r: ReadResult<T>, rest: Seq<u8>, parsed: Parsed<T>) -> bool {
    match parsed {
        Ok((x, s)) => r == Ok::<T, ReadErrorKind>(x) && rest == s,
        Err(e) => r == Err::<T, ReadErrorKind>(e),
    }
}

/// A position in binary data.
#[derive(Debug)]
pub struct BinReader<'a> {
    pub bytes: &'a [u8],
    pub pos: usize,
}

impl<'a> BinReader<'a> {
    pub open spec fn wf(self) -> bool {
        self.pos <= self.bytes@.len()
    }

    /// The data that was not read yet.
    pub open spec fn rest(self) -> Seq<u8> {
        self.bytes@.skip(self.pos as int)
    }

    /// Start reading at an offset.
    pub fn new(bytes: &'a [u8], pos: usize) -> (r: Self)
        requires
            pos <= bytes@.len(),
        ensures
            r.wf(),
            r.bytes == bytes,
            r.rest() == bytes@.skip(pos as int),
            r.pos == pos,
    {
        BinReader { bytes, pos }
    }

    pub fn read_u16(&mut self) -> (r: ReadResult<u16>)
        requires
            old(self).wf(),
        ensures
            final(self).wf(),
            final(self).bytes == old(self).bytes,
            reads_as(r, final(self).rest(), take_u16(old(self).rest())),
    {
        if self.bytes.len() - self.pos < 2 {
            return Err(ReadErrorKind::UnexpectedEof);
        }
        let a: u8 = self.bytes[self.pos];
        let b: u8 = self.bytes[self.pos + 1];
        self.pos = self.pos + 2;
        assert(self.rest() =~= old(self).rest().skip(2));
        Ok(a as u16 + 0x100 * (b as u16))
    }

    pub fn read_u32(&mut self) -> (r: ReadResult<u32>)
        requires
            old(self).wf(),
        ensures
            final(self).wf(),
            final(self).bytes == old(self).bytes,
            reads_as(r, final(self).rest(), take_u32(old(self).rest())),
    {
        if self.bytes.len() - self.pos < 4 {
            return Err(ReadErrorKind::UnexpectedEof);
        }
        let a: u8 = self.bytes[self.pos];
        let b: u8 = self.bytes[self.pos + 1];
        let c: u8 = self.bytes[self.pos + 2];
        let d: u8 = self.bytes[self.pos + 3];
        self.pos = self.pos + 4;
        assert(self.rest() =~= old(self).rest().skip(4));
        Ok(a as u32 + 0x100 * (b as u32) + 0x1_0000 * (c as u32) + 0x100_0000 * (d as u32))
    }

    /// Read a number of bytes.
    pub fn read_exact(&mut self, n: usize) -> (r: ReadResult<Vec<u8>>)
        requires
            old(self).wf(),
        ensures
            final(self).wf(),
            final(self).bytes == old(self).bytes,
            match take_bytes(old(self).rest(), n as nat) {
                Ok((s, rest)) => r matches Ok(v) && v@ == s && final(self).rest() == rest,
                Err(e) => r matches Err(k) && k == e,
            },
    {
        if self.bytes.len() - self.pos < n {
            return Err(ReadErrorKind::UnexpectedEof);
        }
        let end: usize = self.pos + n;
        let mut out: Vec<u8> = Vec::new();
        let mut i: usize = 0;
        while i < n
            invariant
                i <= n,
                self.pos + n == end,
                end <= self.bytes@.len(),
                *self == *old(self),
                out@ == old(self).rest().take(i as int),
            decreases n - i,
        {
            out.push(self.bytes[self.pos + i]);
            i = i + 1;
            assert(out@ =~= old(self).rest().take(i as int));
        }
        self.pos = end;
        assert(self.rest() =~= old(self).rest().skip(n as int));
        Ok(out)
    }

    pub fn read_f32(&mut self) -> (r: ReadResult<F32>)
        requires
            old(self).wf(),
        ensures
            final(self).wf(),
            final(self).bytes == old(self).bytes,
            match take_u32(old(self).rest()) {
                Ok((bits, rest)) => r == Ok::<F32, ReadErrorKind>(F32 { bits })
                    && final(self).rest() == rest,
                Err(e) => r == Err::<F32, ReadErrorKind>(e),
            },
    {
        match self.read_u32() {
            Ok(bits) => Ok(F32::from_bits(bits)),
            Err(e) => Err(e),
        }
    }

    /// Read two numbers.
    pub fn read_f32s_2(&mut self) -> (r: ReadResult<[F32; 2]>)
        requires
            old(self).wf(),
        ensures
            final(self).wf(),
            final(self).bytes == old(self).bytes,
            match take_f32s(old(self).rest(), 2) {
                Ok((xs, rest)) => r matches Ok(a) && a@ == xs && final(self).rest() == rest,
                Err(e) => r matches Err(k) && k == e,
            },
    {
        proof {
            reveal_with_fuel(take_f32s, 3);
        }
        let x = match self.read_f32() {
            Ok(x) => x,
            Err(e) => return Err(e),
        };
        let y = match self.read_f32() {
            Ok(x) => x,
            Err(e) => return Err(e),
        };
        let out = [x, y];
        assert(out@ =~= seq![x, y]);
        assert(seq![x, y] =~= Seq::<F32>::empty().push(x).push(y));
        Ok(out)
    }

    /// Read three numbers.
    pub fn read_f32s_3(&mut self) -> (r: ReadResult<[F32; 3]>)
        requires
            old(self).wf(),
        ensures
            final(self).wf(),
            final(self).bytes == old(self).bytes,
            match take_f32s(old(self).rest(), 3) {
                Ok((xs, rest)) => r matches Ok(a) && a@ == xs && final(self).rest() == rest,
                Err(e) => r matches Err(k) && k == e,
            },
    {
        proof {
            reveal_with_fuel(take_f32s, 4);
        }
        let x = match self.read_f32() {
            Ok(x) => x,
            Err(e) => return Err(e),
        };
        let y = match self.read_f32() {
            Ok(x) => x,
            Err(e) => return Err(e),
        };
        let z = match self.read_f32() {
            Ok(x) => x,
            Err(e) => return Err(e),
        };
        let out = [x, y, z];
        assert(out@ =~= Seq::<F32>::empty().push(x).push(y).push(z));
        Ok(out)
    }
}

// =============================================================================

pub fn write_u16(out: &mut Vec<u8>, x: u16)
    ensures
        final(out)@ == old(out)@ + u16_bytes(x),
{
    out.push((x % 0x100) as u8);
    out.push((x / 0x100) as u8);
    assert(out@ =~= old(out)@ + u16_bytes(x));
}

pub fn write_u32(out: &mut Vec<u8>, x: u32)
    ensures
        final(out)@ == old(out)@ + u32_bytes(x),
{
    out.push((x % 0x100) as u8);
    out.push(((x / 0x100) % 0x100) as u8);
    out.push(((x / 0x1_0000) % 0x100) as u8);
    out.push((x / 0x100_0000) as u8);
    assert(out@ =~= old(out)@ + u32_bytes(x));
}

/// Write over four bytes that are there already.
pub fn patch_u32(out: &mut Vec<u8>, pos: usize, x: u32)
    requires
        pos + 4 <= old(out)@.len(),
    ensures
        final(out)@ == patched(old(out)@, pos as int, u32_bytes(x)),
        final(out)@.len() == old(out)@.len(),
{
    let len: usize = out.len();
    assert(pos + 4 <= len);
    out.set(pos, (x % 0x100) as u8);
    out.set(pos + 1, ((x / 0x100) % 0x100) as u8);
    out.set(pos + 2, ((x / 0x1_0000) % 0x100) as u8);
    out.set(pos + 3, (x / 0x100_0000) as u8);
    assert(out@ =~= patched(old(out)@, pos as int, u32_bytes(x)));
}

/// Data with some of its bytes replaced.
pub open spec fn patched(s: Seq<u8>, pos: int, bytes: Seq<u8>) -> Seq<u8> {
    s.take(pos) + bytes + s.skip(pos + bytes.len())
}

pub fn write_f32s(out: &mut Vec<u8>, xs: &[F32])
    ensures
        final(out)@ == old(out)@ + f32s_bytes(xs@),
{
    let mut i: usize = 0;
    assert(old(out)@ + f32s_bytes(xs@.take(0)) =~= old(out)@);
    while i < xs.len()
        invariant
            i <= xs@.len(),
            out@ == old(out)@ + f32s_bytes(xs@.take(i as int)),
        decreases xs@.len() - i,
    {
        write_u32(out, xs[i].to_bits());
        assert(xs@.take(i + 1).drop_last() =~= xs@.take(i as int));
        i = i + 1;
        assert(out@ =~= old(out)@ + f32s_bytes(xs@.take(i as int)));
    }
    assert(xs@.take(i as int) =~= xs@);
}

pub fn write_bytes(out: &mut Vec<u8>, xs: &[u8])
    ensures
        final(out)@ == old(out)@ + xs@,
{
    out.extend_from_slice(xs);
    assert(out@ =~= old(out)@ + xs@);
}

// =============================================================================

/// A number is read back as it was written, whatever follows it.
pub proof fn lemma_u16_round_trip(x: u16, rest: Seq<u8>)
    ensures
        take_u16(u16_bytes(x) + rest) == Ok::<(u16, Seq<u8>), ReadErrorKind>((x, rest)),
        u16_bytes(x).len() == 2,
{
    assert((u16_bytes(x) + rest).skip(2) =~= rest);
}

pub proof fn lemma_u32_round_trip(x: u32, rest: Seq<u8>)
    ensures
        take_u32(u32_bytes(x) + rest) == Ok::<(u32, Seq<u8>), ReadErrorKind>((x, rest)),
        u32_bytes(x).len() == 4,
{
    assert((u32_bytes(x) + rest).skip(4) =~= rest);
    assert(x == x % 0x100 + 0x100 * ((x / 0x100) % 0x100) + 0x1_0000 * ((x / 0x1_0000) % 0x100)
        + 0x100_0000 * (x / 0x100_0000));
}

pub proof fn lemma_f32s_round_trip(xs: Seq<F32>, rest: Seq<u8>)
    ensures
        take_f32s(f32s_bytes(xs) + rest, xs.len()) == Ok::<(Seq<F32>, Seq<u8>), ReadErrorKind>(
            (xs, rest),
        ),
        f32s_bytes(xs).len() == 4 * xs.len(),
    decreases xs.len(),
{
    if xs.len() == 0 {
        assert(f32s_bytes(xs) + rest =~= rest);
        assert(xs =~= seq![]);
    } else {
        let last = u32_bytes(xs.last().bits);
        lemma_f32s_round_trip(xs.drop_last(), last + rest);
        lemma_u32_round_trip(xs.last().bits, rest);
        assert(f32s_bytes(xs) + rest =~= f32s_bytes(xs.drop_last()) + (last + rest));
        assert(xs.drop_last().push(xs.last()) =~= xs);
    }
}

} // verus!
