//! Reading and writing of STD files.

use crate::binary_io::{
    f32s_bytes, lemma_f32s_round_trip, lemma_u16_round_trip, lemma_u32_round_trip, patch_u32,
    patched, take_f32s, take_u16, take_u32, u16_bytes, u32_bytes, write_f32s, write_u16, write_u32,
    BinReader, Parsed, ReadError, ReadErrorKind, ReadResult, Warning,
};
use crate::float32::F32;
use crate::ident::Ident;
use crate::instr::format::{
    all_raw, instrs_bytes, instrs_warnings, law_instrs_round_trip, law_missing_end_marker_is_told,
    read_instrs, take_instrs, write_instrs, InstrFormat,
};
use crate::pos::sp;
use crate::std_file::format::{
    ones_dwords, write_error_view, write_ones_dwords, FileFormat, WriteError,
};
use crate::std_file::{
    insert_object, instances_view, key_index, lemma_insert_view, lemma_key_index_view, new_objects,
    num_objects, object_at, object_entries, object_index, objects_view, quads_view, with_entry,
    ExtraV, Instance, InstanceV, Object, ObjectV, Quad, QuadExtra, QuadExtraV, QuadV, StdFile,
    StdFileV,
};
use crate::text::{decimal_spec, lemma_numbered_name_injective, numbered_name};
use indexmap::IndexMap;
use vstd::prelude::*;

verus! {

// =============================================================================
// Quads

/// What is read of a quad; `None` is the marker behind the last one.
#[verifier::opaque]
pub open spec fn take_quad(s: Seq<u8>) -> Parsed<Option<QuadV>> {
    match take_u16(s) {
        Err(e) => Err(e),
        Ok((kind, s)) => match take_u16(s) {
            Err(e) => Err(e),
            Ok((size, s)) => {
                let kind = kind as i16;
                if kind == -1 && size == 4 {
                    Ok((None, s))
                } else if kind == -1 || kind == 0 && size != 0x1c || kind == 1 && size != 0x24 {
                    Err(ReadErrorKind::QuadSize { kind, size })
                } else if kind != 0 && kind != 1 {
                    Err(ReadErrorKind::QuadKind { kind })
                } else {
                    match take_u16(s) {
                        Err(e) => Err(e),
                        Ok((anm_script, s)) => match take_u16(s) {
                            Err(e) => Err(e),
                            // This word is zero in the file, and used to store an index in-game.
                            Ok((index, s)) => if index != 0 {
                                Err(ReadErrorKind::QuadIndex { index })
                            } else {
                                take_quad_extra(kind, anm_script, s)
                            },
                        },
                    }
                }
            },
        },
    }
}

pub open spec fn take_quad_extra(kind: i16, anm_script: u16, s: Seq<u8>) -> Parsed<Option<QuadV>> {
    match take_f32s(s, 3) {
        Err(e) => Err(e),
        Ok((first, s)) => if kind == 0 {
            match take_f32s(s, 2) {
                Err(e) => Err(e),
                Ok((size, s)) => Ok(
                    (
                        Some(
                            QuadV { anm_script, extra: QuadExtraV::Rect { pos: first, size } },
                        ),
                        s,
                    ),
                ),
            }
        } else {
            match take_f32s(s, 3) {
                Err(e) => Err(e),
                Ok((end, s)) => match take_u32(s) {
                    Err(e) => Err(e),
                    Ok((bits, s)) => Ok(
                        (
                            Some(
                                QuadV {
                                    anm_script,
                                    extra: QuadExtraV::Strip {
                                        start: first,
                                        end,
                                        width: F32 { bits },
                                    },
                                },
                            ),
                            s,
                        ),
                    ),
                },
            }
        },
    }
}

pub open spec fn quad_bytes(q: QuadV) -> Seq<u8> {
    match q.extra {
        QuadExtraV::Rect { pos, size } => u16_bytes(0) + u16_bytes(0x1c) + u16_bytes(q.anm_script)
            + u16_bytes(0) + f32s_bytes(pos) + f32s_bytes(size),
        QuadExtraV::Strip { start, end, width } => u16_bytes(1) + u16_bytes(0x24) + u16_bytes(
            q.anm_script,
        ) + u16_bytes(0) + f32s_bytes(start) + f32s_bytes(end) + u32_bytes(width.bits),
    }
}

pub open spec fn terminal_quad_bytes() -> Seq<u8> {
    u16_bytes(0xffff) + u16_bytes(4)
}

/// Whether the vectors of a quad have the lengths that they have in code.
pub open spec fn quad_wf(q: QuadV) -> bool {
    match q.extra {
        QuadExtraV::Rect { pos, size } => pos.len() == 3 && size.len() == 2,
        QuadExtraV::Strip { start, end, .. } => start.len() == 3 && end.len() == 3,
    }
}

fn read_quad(f: &mut BinReader) -> (r: ReadResult<Option<Quad>>)
    requires
        old(f).wf(),
    ensures
        final(f).wf(),
        final(f).bytes == old(f).bytes,
        match take_quad(old(f).rest()) {
            Ok((q, rest)) => final(f).rest() == rest && match q {
                Some(q) => r matches Ok(Some(x)) && x@ == q,
                None => r matches Ok(None),
            },
            Err(e) => r matches Err(k) && k == e,
        },
{
    proof {
        reveal(take_quad);
    }
    let kind: i16 = match f.read_u16() {
        Ok(x) => x as i16,
        Err(e) => return Err(e),
    };
    let size: u16 = match f.read_u16() {
        Ok(x) => x,
        Err(e) => return Err(e),
    };
    if kind == -1 && size == 4 {
        return Ok(None);  // no more quads
    }
    if kind == -1 || kind == 0 && size != 0x1c || kind == 1 && size != 0x24 {
        return Err(ReadErrorKind::QuadSize { kind, size });
    }
    if kind != 0 && kind != 1 {
        return Err(ReadErrorKind::QuadKind { kind });
    }
    let anm_script: u16 = match f.read_u16() {
        Ok(x) => x,
        Err(e) => return Err(e),
    };
    // This word is zero in the file, and used to store an index in-game.
    let index: u16 = match f.read_u16() {
        Ok(x) => x,
        Err(e) => return Err(e),
    };
    if index != 0 {
        return Err(ReadErrorKind::QuadIndex { index });
    }
    let first = match f.read_f32s_3() {
        Ok(x) => x,
        Err(e) => return Err(e),
    };
    let extra = if kind == 0 {
        let size = match f.read_f32s_2() {
            Ok(x) => x,
            Err(e) => return Err(e),
        };
        QuadExtra::Rect { pos: first, size }
    } else {
        let end = match f.read_f32s_3() {
            Ok(x) => x,
            Err(e) => return Err(e),
        };
        let width = match f.read_f32() {
            Ok(x) => x,
            Err(e) => return Err(e),
        };
        QuadExtra::Strip { start: first, end, width }
    };
    Ok(Some(Quad { anm_script, extra }))
}

/// The warning that is given when a strip is written to a file of a game that has none.
pub open spec fn quad_warnings<F: FileFormat>(format: F, q: QuadV) -> Seq<Warning> {
    if q.extra is Strip && !format.has_strips_spec() {
        seq![Warning::StripQuad]
    } else {
        seq![]
    }
}

/// The warnings that are given when quads are written.
pub open spec fn quads_warnings<F: FileFormat>(format: F, quads: Seq<QuadV>) -> Seq<Warning>
    decreases quads.len(),
{
    if quads.len() == 0 {
        seq![]
    } else {
        quads_warnings(format, quads.drop_last()) + quad_warnings(format, quads.last())
    }
}

fn write_quad<F: FileFormat>(
    out: &mut Vec<u8>,
    format: &F,
    quad: &Quad,
    warnings: &mut Vec<Warning>,
)
    ensures
        final(out)@ == old(out)@ + quad_bytes(quad@),
        final(warnings)@ == old(warnings)@ + quad_warnings(*format, quad@),
{
    assert(warnings@ + seq![] =~= warnings@);
    let (kind, size): (u16, u16) = match &quad.extra {
        QuadExtra::Rect { .. } => (0, 0x1c),
        QuadExtra::Strip { .. } => (1, 0x24),
    };
    write_u16(out, kind);
    write_u16(out, size);
    write_u16(out, quad.anm_script);
    write_u16(out, 0);
    match &quad.extra {
        QuadExtra::Rect { pos, size } => {
            write_f32s(out, pos.as_slice());
            write_f32s(out, size.as_slice());
        },
        QuadExtra::Strip { start, end, width } => {
            if !format.has_strips() {
                warnings.push(Warning::StripQuad);
            }
            write_f32s(out, start.as_slice());
            write_f32s(out, end.as_slice());
            write_u32(out, width.to_bits());
        },
    }
    assert(out@ =~= old(out)@ + quad_bytes(quad@));
}

fn write_terminal_quad(out: &mut Vec<u8>)
    ensures
        final(out)@ == old(out)@ + terminal_quad_bytes(),
{
    write_u16(out, 0xffff);
    write_u16(out, 4);
    assert(out@ =~= old(out)@ + terminal_quad_bytes());
}

pub proof fn lemma_take_quad_shrinks(s: Seq<u8>)
    ensures
        take_quad(s) matches Ok((_, rest)) ==> rest.len() < s.len(),
{
    reveal(take_quad);
    lemma_take_f32s_len(s.skip(2).skip(2).skip(2).skip(2), 3);
    match take_f32s(s.skip(2).skip(2).skip(2).skip(2), 3) {
        Ok((_, rest)) => {
            lemma_take_f32s_len(rest, 2);
            lemma_take_f32s_len(rest, 3);
        },
        Err(_) => {},
    }
}

proof fn lemma_take_f32s_len(s: Seq<u8>, n: nat)
    ensures
        take_f32s(s, n) matches Ok((xs, rest)) ==> xs.len() == n && s.len() == rest.len() + 4 * n,
    decreases n,
{
    if n > 0 {
        lemma_take_f32s_len(s, (n - 1) as nat);
    }
}

proof fn lemma_cat_6(
    a: Seq<u8>,
    b: Seq<u8>,
    c: Seq<u8>,
    d: Seq<u8>,
    e: Seq<u8>,
    f: Seq<u8>,
    rest: Seq<u8>,
)
    ensures
        (a + b + c + d + e + f) + rest == a + (b + (c + (d + (e + (f + rest))))),
{
    assert((a + b + c + d + e + f) + rest =~= a + (b + (c + (d + (e + (f + rest))))));
}

proof fn lemma_rect_round_trip(anm_script: u16, pos: Seq<F32>, size: Seq<F32>, rest: Seq<u8>)
    requires
        pos.len() == 3,
        size.len() == 2,
    ensures
        ({
            let q = QuadV { anm_script, extra: QuadExtraV::Rect { pos, size } };
            take_quad(quad_bytes(q) + rest) == Ok::<(Option<QuadV>, Seq<u8>), ReadErrorKind>(
                (Some(q), rest),
            )
        }),
{
    reveal(take_quad);
    assert(0u16 as i16 == 0i16) by (bit_vector);
    let t5 = f32s_bytes(size) + rest;
    let t4 = f32s_bytes(pos) + t5;
    let t3 = u16_bytes(0) + t4;
    let t2 = u16_bytes(anm_script) + t3;
    let t1 = u16_bytes(0x1c) + t2;
    lemma_cat_6(
        u16_bytes(0),
        u16_bytes(0x1c),
        u16_bytes(anm_script),
        u16_bytes(0),
        f32s_bytes(pos),
        f32s_bytes(size),
        rest,
    );
    lemma_u16_round_trip(0, t1);
    lemma_u16_round_trip(0x1c, t2);
    lemma_u16_round_trip(anm_script, t3);
    lemma_u16_round_trip(0, t4);
    lemma_f32s_round_trip(pos, t5);
    lemma_f32s_round_trip(size, rest);
}

proof fn lemma_strip_round_trip(
    anm_script: u16,
    start: Seq<F32>,
    end: Seq<F32>,
    width: F32,
    rest: Seq<u8>,
)
    requires
        start.len() == 3,
        end.len() == 3,
    ensures
        ({
            let q = QuadV { anm_script, extra: QuadExtraV::Strip { start, end, width } };
            take_quad(quad_bytes(q) + rest) == Ok::<(Option<QuadV>, Seq<u8>), ReadErrorKind>(
                (Some(q), rest),
            )
        }),
{
    reveal(take_quad);
    assert(1u16 as i16 == 1i16) by (bit_vector);
    let w = u32_bytes(width.bits);
    let t6 = w + rest;
    let t5 = f32s_bytes(end) + t6;
    let t4 = f32s_bytes(start) + t5;
    let t3 = u16_bytes(0) + t4;
    let t2 = u16_bytes(anm_script) + t3;
    let t1 = u16_bytes(0x24) + t2;
    let head = u16_bytes(1) + u16_bytes(0x24) + u16_bytes(anm_script) + u16_bytes(0) + f32s_bytes(
        start,
    ) + f32s_bytes(end);
    assert((head + w) + rest =~= head + (w + rest));
    lemma_cat_6(
        u16_bytes(1),
        u16_bytes(0x24),
        u16_bytes(anm_script),
        u16_bytes(0),
        f32s_bytes(start),
        f32s_bytes(end),
        t6,
    );
    lemma_u16_round_trip(1, t1);
    lemma_u16_round_trip(0x24, t2);
    lemma_u16_round_trip(anm_script, t3);
    lemma_u16_round_trip(0, t4);
    lemma_f32s_round_trip(start, t5);
    lemma_f32s_round_trip(end, t6);
    lemma_u32_round_trip(width.bits, rest);
}

/// A quad is read back as it was written, whatever follows it.
pub proof fn law_quad_round_trip(q: QuadV, rest: Seq<u8>)
    requires
        quad_wf(q),
    ensures
        take_quad(quad_bytes(q) + rest) == Ok::<(Option<QuadV>, Seq<u8>), ReadErrorKind>(
            (Some(q), rest),
        ),
{
    match q.extra {
        QuadExtraV::Rect { pos, size } => {
            lemma_rect_round_trip(q.anm_script, pos, size, rest);
        },
        QuadExtraV::Strip { start, end, width } => {
            lemma_strip_round_trip(q.anm_script, start, end, width, rest);
        },
    }
}

proof fn lemma_terminal_quad(rest: Seq<u8>)
    ensures
        take_quad(terminal_quad_bytes() + rest) == Ok::<(Option<QuadV>, Seq<u8>), ReadErrorKind>(
            (None, rest),
        ),
{
    reveal(take_quad);
    assert(0xffffu16 as i16 == -1i16) by (bit_vector);
    assert(terminal_quad_bytes() + rest =~= u16_bytes(0xffff) + (u16_bytes(4) + rest));
    lemma_u16_round_trip(0xffff, u16_bytes(4) + rest);
    lemma_u16_round_trip(4, rest);
}

/// The quads that are read behind those in `done`, up to the end marker.
pub open spec fn take_quads(s: Seq<u8>, done: Seq<QuadV>) -> Parsed<Seq<QuadV>>
    decreases s.len(),
{
    match take_quad(s) {
        Err(e) => Err(e),
        Ok((None, rest)) => Ok((done, rest)),
        Ok((Some(q), rest)) => if rest.len() < s.len() {
            take_quads(rest, done.push(q))
        } else {
            arbitrary()
        },
    }
}

pub open spec fn quads_bytes(quads: Seq<QuadV>) -> Seq<u8>
    decreases quads.len(),
{
    if quads.len() == 0 {
        seq![]
    } else {
        quads_bytes(quads.drop_last()) + quad_bytes(quads.last())
    }
}

proof fn lemma_quads_bytes_first(quads: Seq<QuadV>)
    requires
        quads.len() > 0,
    ensures
        quads_bytes(quads) == quad_bytes(quads[0]) + quads_bytes(quads.skip(1)),
    decreases quads.len(),
{
    if quads.len() == 1 {
        assert(quads.drop_last() =~= seq![]);
        assert(quads.skip(1) =~= seq![]);
        assert(quads_bytes(quads.drop_last()) =~= seq![]);
        assert(quads_bytes(quads) =~= quad_bytes(quads[0]) + quads_bytes(quads.skip(1)));
    } else {
        lemma_quads_bytes_first(quads.drop_last());
        assert(quads.drop_last().skip(1) =~= quads.skip(1).drop_last());
        assert(quads_bytes(quads) =~= quad_bytes(quads[0]) + quads_bytes(quads.skip(1)));
    }
}

proof fn lemma_quads_round_trip(quads: Seq<QuadV>, done: Seq<QuadV>, rest: Seq<u8>)
    requires
        forall|i: int| 0 <= i < quads.len() ==> quad_wf(#[trigger] quads[i]),
    ensures
        take_quads(quads_bytes(quads) + terminal_quad_bytes() + rest, done) == Ok::<
            (Seq<QuadV>, Seq<u8>),
            ReadErrorKind,
        >((done + quads, rest)),
    decreases quads.len(),
{
    let s = quads_bytes(quads) + terminal_quad_bytes() + rest;
    if quads.len() == 0 {
        assert(s =~= terminal_quad_bytes() + rest);
        lemma_terminal_quad(rest);
        assert(done + quads =~= done);
    } else {
        lemma_quads_bytes_first(quads);
        let tail = quads.skip(1);
        let after = quads_bytes(tail) + terminal_quad_bytes() + rest;
        assert(s =~= quad_bytes(quads[0]) + after);
        law_quad_round_trip(quads[0], after);
        lemma_take_quad_shrinks(s);
        assert forall|i: int| 0 <= i < tail.len() implies quad_wf(#[trigger] tail[i]) by {
            assert(tail[i] == quads[i + 1]);
        }
        lemma_quads_round_trip(tail, done.push(quads[0]), rest);
        assert(done.push(quads[0]) + tail =~= done + quads);
    }
}

// =============================================================================
// Objects

/// What is read of an object.  Its number makes no difference.
#[verifier::opaque]
pub open spec fn take_object(s: Seq<u8>) -> Parsed<ObjectV> {
    match take_u16(s) {
        Err(e) => Err(e),
        Ok((_, s)) => match take_u16(s) {
            Err(e) => Err(e),
            Ok((unknown, s)) => match take_f32s(s, 3) {
                Err(e) => Err(e),
                Ok((pos, s)) => match take_f32s(s, 3) {
                    Err(e) => Err(e),
                    Ok((size, s)) => match take_quads(s, seq![]) {
                        Err(e) => Err(e),
                        Ok((quads, s)) => Ok((ObjectV { unknown, pos, size, quads }, s)),
                    },
                },
            },
        },
    }
}

#[verifier::opaque]
pub open spec fn object_bytes(id: nat, x: ObjectV) -> Seq<u8> {
    u16_bytes((id as usize) as u16) + u16_bytes(x.unknown) + f32s_bytes(x.pos) + f32s_bytes(x.size)
        + quads_bytes(x.quads) + terminal_quad_bytes()
}

pub open spec fn object_wf(x: ObjectV) -> bool {
    &&& x.pos.len() == 3
    &&& x.size.len() == 3
    &&& forall|i: int| 0 <= i < x.quads.len() ==> quad_wf(#[trigger] x.quads[i])
}

/// The warning that is given when an object is read that has another number than its place.
pub open spec fn object_warnings(expected_id: nat, s: Seq<u8>) -> Seq<Warning> {
    match take_u16(s) {
        Ok((id, _)) if id != expected_id => seq![
            Warning::NonSequentialId { expected: expected_id as usize, id },
        ],
        _ => seq![],
    }
}

fn read_object(expected_id: usize, f: &mut BinReader, warnings: &mut Vec<Warning>) -> (r: ReadResult<
    Object,
>)
    requires
        old(f).wf(),
    ensures
        final(f).wf(),
        final(f).bytes == old(f).bytes,
        final(warnings)@ == old(warnings)@ + object_warnings(
            expected_id as nat,
            old(f).rest(),
        ),
        match take_object(old(f).rest()) {
            Ok((x, rest)) => r matches Ok(v) && v@ == x && final(f).rest() == rest,
            Err(e) => r matches Err(k) && k == e,
        },
{
    proof {
        reveal(take_object);
    }
    assert(warnings@ + seq![] =~= warnings@);
    let id: u16 = match f.read_u16() {
        Ok(x) => x,
        Err(e) => return Err(e),
    };
    if id as usize != expected_id {
        warnings.push(Warning::NonSequentialId { expected: expected_id, id });
    }
    let ghost given = old(warnings)@ + object_warnings(expected_id as nat, old(f).rest());
    assert(warnings@ =~= given);
    let unknown: u16 = match f.read_u16() {
        Ok(x) => x,
        Err(e) => return Err(e),
    };
    let pos = match f.read_f32s_3() {
        Ok(x) => x,
        Err(e) => return Err(e),
    };
    let size = match f.read_f32s_3() {
        Ok(x) => x,
        Err(e) => return Err(e),
    };
    let mut quads: Vec<Quad> = Vec::new();
    let ghost start = f.rest();
    assert(quads_view(quads@) =~= seq![]);
    loop
        invariant_except_break
            f.wf(),
            f.bytes == old(f).bytes,
            warnings@ == given,
            given == old(warnings)@ + object_warnings(expected_id as nat, old(f).rest()),
            take_quads(start, seq![]) == take_quads(f.rest(), quads_view(quads@)),
            take_object(old(f).rest()) == (match take_quads(start, seq![]) {
                Err(e) => Err::<(ObjectV, Seq<u8>), ReadErrorKind>(e),
                Ok((quads, s)) => Ok(
                    (ObjectV { unknown, pos: pos@, size: size@, quads }, s),
                ),
            }),
        ensures
            f.wf(),
            f.bytes == old(f).bytes,
            warnings@ == given,
            given == old(warnings)@ + object_warnings(expected_id as nat, old(f).rest()),
            take_quads(start, seq![]) == Ok::<(Seq<QuadV>, Seq<u8>), ReadErrorKind>(
                (quads_view(quads@), f.rest()),
            ),
            take_object(old(f).rest()) == (match take_quads(start, seq![]) {
                Err(e) => Err::<(ObjectV, Seq<u8>), ReadErrorKind>(e),
                Ok((quads, s)) => Ok(
                    (ObjectV { unknown, pos: pos@, size: size@, quads }, s),
                ),
            }),
        decreases f.rest().len(),
    {
        proof {
            lemma_take_quad_shrinks(f.rest());
        }
        let ghost v = quads_view(quads@);
        match read_quad(f) {
            Err(e) => return Err(e),
            Ok(None) => break,
            Ok(Some(q)) => {
                let ghost qv = q@;
                quads.push(q);
                assert(quads_view(quads@) =~= v.push(qv));
            },
        }
    }
    Ok(Object { unknown, pos, size, quads })
}

fn write_object<F: FileFormat>(
    out: &mut Vec<u8>,
    format: &F,
    id: usize,
    x: &Object,
    warnings: &mut Vec<Warning>,
)
    ensures
        final(out)@ == old(out)@ + object_bytes(id as nat, x@),
        final(warnings)@ == old(warnings)@ + quads_warnings(*format, x@.quads),
{
    let ghost given = warnings@;
    proof {
        reveal(object_bytes);
    }
    write_u16(out, id as u16);
    write_u16(out, x.unknown);
    write_f32s(out, x.pos.as_slice());
    write_f32s(out, x.size.as_slice());
    let ghost start = out@;
    let ghost views = quads_view(x.quads@);
    let mut i: usize = 0;
    assert(start + quads_bytes(views.take(0)) =~= start);
    assert(given + quads_warnings(*format, views.take(0)) =~= given);
    while i < x.quads.len()
        invariant
            i <= x.quads@.len(),
            views == quads_view(x.quads@),
            out@ == start + quads_bytes(views.take(i as int)),
            warnings@ == given + quads_warnings(*format, views.take(i as int)),
        decreases x.quads@.len() - i,
    {
        assert(views[i as int] == x.quads@[i as int]@);
        write_quad(out, format, &x.quads[i], warnings);
        assert(views.take(i + 1).drop_last() =~= views.take(i as int));
        i = i + 1;
        assert(out@ =~= start + quads_bytes(views.take(i as int)));
        assert(warnings@ =~= given + quads_warnings(*format, views.take(i as int)));
    }
    assert(views.take(i as int) =~= views);
    write_terminal_quad(out);
    assert(out@ =~= old(out)@ + object_bytes(id as nat, x@));
}

/// An object is read back as it was written, whatever follows it, and at its place without a warning.
pub proof fn law_object_round_trip(id: nat, x: ObjectV, rest: Seq<u8>)
    requires
        object_wf(x),
    ensures
        take_object(object_bytes(id, x) + rest) == Ok::<(ObjectV, Seq<u8>), ReadErrorKind>(
            (x, rest),
        ),
        id <= 0xffff ==> object_warnings(id, object_bytes(id, x) + rest) == Seq::<Warning>::empty(),
{
    reveal(take_object);
    reveal(object_bytes);
    let number = (id as usize) as u16;
    let t4 = quads_bytes(x.quads) + terminal_quad_bytes() + rest;
    let t3 = f32s_bytes(x.size) + t4;
    let t2 = f32s_bytes(x.pos) + t3;
    let t1 = u16_bytes(x.unknown) + t2;
    assert(object_bytes(id, x) + rest =~= u16_bytes(number) + t1);
    lemma_u16_round_trip(number, t1);
    lemma_u16_round_trip(x.unknown, t2);
    lemma_f32s_round_trip(x.pos, t3);
    lemma_f32s_round_trip(x.size, t4);
    lemma_quads_round_trip(x.quads, seq![], rest);
    assert(seq![] + x.quads =~= x.quads);
}

// =============================================================================
// Instances

/// What is read of an instance; `None` is the marker behind the last one.
#[verifier::opaque]
pub open spec fn take_instance(s: Seq<u8>, objects: Seq<(Seq<char>, ObjectV)>) -> Parsed<
    Option<InstanceV>,
> {
    match take_u16(s) {
        Err(e) => Err(e),
        Ok((index, s)) => match take_u16(s) {
            Err(e) => Err(e),
            Ok((unknown, s)) => if index == 0xffff {
                Ok((None, s))
            } else if index >= objects.len() {
                Err(
                    ReadErrorKind::ObjectIndex { index, num_objects: objects.len() as usize },
                )
            } else {
                match take_f32s(s, 3) {
                    Err(e) => Err(e),
                    Ok((pos, s)) => Ok(
                        (
                            Some(
                                InstanceV { object: objects[index as int].0, unknown, pos },
                            ),
                            s,
                        ),
                    ),
                }
            },
        },
    }
}

pub open spec fn instance_bytes(x: InstanceV, objects: Seq<(Seq<char>, ObjectV)>) -> Result<
    Seq<u8>,
    WriteError<Seq<char>>,
> {
    match key_index(objects, x.object) {
        None => Err(WriteError::NoSuchObject { name: x.object }),
        Some(i) => Ok(u16_bytes((i as usize) as u16) + u16_bytes(x.unknown) + f32s_bytes(x.pos)),
    }
}

pub proof fn lemma_take_instance_shrinks(s: Seq<u8>, objects: Seq<(Seq<char>, ObjectV)>)
    ensures
        take_instance(s, objects) matches Ok((_, rest)) ==> rest.len() < s.len(),
{
    reveal(take_instance);
    lemma_take_f32s_len(s.skip(2).skip(2), 3);
}

/// The instances that are read behind those in `done`, up to the end marker.
pub open spec fn take_instances(
    s: Seq<u8>,
    objects: Seq<(Seq<char>, ObjectV)>,
    done: Seq<InstanceV>,
) -> ReadResult<Seq<InstanceV>>
    decreases s.len(),
{
    match take_instance(s, objects) {
        Err(e) => Err(e),
        Ok((None, _)) => Ok(done),
        Ok((Some(x), rest)) => if rest.len() < s.len() {
            take_instances(rest, objects, done.push(x))
        } else {
            arbitrary()
        },
    }
}

/// The first `n` instances.
pub open spec fn instances_bytes(
    xs: Seq<InstanceV>,
    objects: Seq<(Seq<char>, ObjectV)>,
    n: nat,
) -> Result<Seq<u8>, WriteError<Seq<char>>>
    decreases n,
{
    if n == 0 {
        Ok(seq![])
    } else {
        match instances_bytes(xs, objects, (n - 1) as nat) {
            Err(e) => Err(e),
            Ok(done) => match instance_bytes(xs[n - 1], objects) {
                Err(e) => Err(e),
                Ok(bytes) => Ok(done + bytes),
            },
        }
    }
}

/// Those of the first `n` instances that stand before the first one without an object.
pub open spec fn instances_written(
    xs: Seq<InstanceV>,
    objects: Seq<(Seq<char>, ObjectV)>,
    n: nat,
) -> Seq<u8>
    decreases n,
{
    match instances_bytes(xs, objects, n) {
        Ok(bytes) => bytes,
        Err(_) => if n == 0 {
            seq![]
        } else {
            instances_written(xs, objects, (n - 1) as nat)
        },
    }
}

fn read_instance(f: &mut BinReader, objects: &IndexMap<String, Object>) -> (r: ReadResult<
    Option<Instance>,
>)
    requires
        old(f).wf(),
    ensures
        final(f).wf(),
        final(f).bytes == old(f).bytes,
        match take_instance(old(f).rest(), objects_view(*objects)) {
            Ok((x, rest)) => final(f).rest() == rest && match x {
                Some(x) => r matches Ok(Some(v)) && v@ == x,
                None => r matches Ok(None),
            },
            Err(e) => r matches Err(k) && k == e,
        },
{
    proof {
        reveal(take_instance);
    }
    let index: u16 = match f.read_u16() {
        Ok(x) => x,
        Err(e) => return Err(e),
    };
    let unknown: u16 = match f.read_u16() {
        Ok(x) => x,
        Err(e) => return Err(e),
    };
    if index == 0xffff {
        return Ok(None);
    }
    let object = match object_at(objects, index as usize) {
        Some((name, _)) => sp(Ident { text: name.clone() }),
        None => return Err(
            ReadErrorKind::ObjectIndex { index, num_objects: num_objects(objects) },
        ),
    };
    match f.read_f32s_3() {
        Ok(pos) => Ok(Some(Instance { object, unknown, pos })),
        Err(e) => Err(e),
    }
}

fn write_instance(out: &mut Vec<u8>, inst: &Instance, objects: &IndexMap<String, Object>) -> (r:
    Result<(), WriteError<Ident>>)
    ensures
        match instance_bytes(inst@, objects_view(*objects)) {
            Ok(bytes) => r is Ok && final(out)@ == old(out)@ + bytes,
            Err(e) => r matches Err(k) && write_error_view(k) == e && final(out)@ == old(out)@,
        },
{
    proof {
        lemma_key_index_view(object_entries(*objects), inst.object.value@);
    }
    let index: usize = match object_index(objects, inst.object.value.text.as_str()) {
        Some(i) => i,
        None => return Err(WriteError::NoSuchObject { name: inst.object.value.clone() }),
    };
    write_u16(out, index as u16);
    write_u16(out, inst.unknown);
    write_f32s(out, inst.pos.as_slice());
    proof {
        let bytes = u16_bytes(index as u16) + u16_bytes(inst.unknown) + f32s_bytes(inst.pos@);
        assert(out@ =~= old(out)@ + bytes);
    }
    Ok(())
}

fn write_terminal_instance(out: &mut Vec<u8>)
    ensures
        final(out)@ == old(out)@ + ones_dwords(4),
{
    write_ones_dwords(out, 4);
}

// =============================================================================
// Whole files

/// The name of an object that was read, by its number.
pub open spec fn object_name(i: nat) -> Seq<char> {
    "object"@ + decimal_spec(i)
}

/// Read `n` offsets.
pub open spec fn take_u32s(s: Seq<u8>, n: nat) -> Parsed<Seq<u32>>
    decreases n,
{
    if n == 0 {
        Ok((seq![], s))
    } else {
        match take_u32s(s, (n - 1) as nat) {
            Err(e) => Err(e),
            Ok((xs, rest)) => match take_u32(rest) {
                Err(e) => Err(e),
                Ok((x, rest)) => Ok((xs.push(x), rest)),
            },
        }
    }
}

pub open spec fn u32s_bytes(xs: Seq<u32>) -> Seq<u8>
    decreases xs.len(),
{
    if xs.len() == 0 {
        seq![]
    } else {
        u32s_bytes(xs.drop_last()) + u32_bytes(xs.last())
    }
}

/// The numbers at the start of a file.
pub ghost struct StartV {
    pub num_objects: u16,
    pub num_quads: u16,
    pub instances_offset: u32,
    pub script_offset: u32,
    pub unknown: u32,
}

#[verifier::opaque]
pub open spec fn take_start(s: Seq<u8>) -> Parsed<StartV> {
    match take_u16(s) {
        Err(e) => Err(e),
        Ok((num_objects, s)) => match take_u16(s) {
            Err(e) => Err(e),
            Ok((num_quads, s)) => match take_u32(s) {
                Err(e) => Err(e),
                Ok((instances_offset, s)) => match take_u32(s) {
                    Err(e) => Err(e),
                    Ok((script_offset, s)) => match take_u32(s) {
                        Err(e) => Err(e),
                        Ok((unknown, s)) => Ok(
                            (
                                StartV {
                                    num_objects,
                                    num_quads,
                                    instances_offset,
                                    script_offset,
                                    unknown,
                                },
                                s,
                            ),
                        ),
                    },
                },
            },
        },
    }
}

#[verifier::opaque]
pub open spec fn start_bytes(x: StartV) -> Seq<u8> {
    u16_bytes(x.num_objects) + u16_bytes(x.num_quads) + u32_bytes(x.instances_offset) + u32_bytes(
        x.script_offset,
    ) + u32_bytes(x.unknown)
}

/// The data of a file from an offset on.
pub open spec fn data_at(bytes: Seq<u8>, offset: u32) -> ReadResult<Seq<u8>> {
    if offset > bytes.len() {
        Err(ReadErrorKind::BadOffset { offset })
    } else {
        Ok(bytes.skip(offset as int))
    }
}

/// The first `n` objects of a file.
pub open spec fn take_objects(bytes: Seq<u8>, offsets: Seq<u32>, n: nat) -> ReadResult<
    Seq<(Seq<char>, ObjectV)>,
>
    decreases n,
{
    if n == 0 {
        Ok(seq![])
    } else {
        match take_objects(bytes, offsets, (n - 1) as nat) {
            Err(e) => Err(e),
            Ok(done) => match data_at(bytes, offsets[n - 1]) {
                Err(e) => Err(e),
                Ok(s) => match take_object(s) {
                    Err(e) => Err(e),
                    Ok((x, _)) => Ok(done.push((object_name((n - 1) as nat), x))),
                },
            },
        }
    }
}

/// The warnings that are given when the first `n` objects are read.
pub open spec fn objects_warnings(bytes: Seq<u8>, offsets: Seq<u32>, n: nat) -> Seq<Warning>
    decreases n,
{
    if n == 0 {
        seq![]
    } else {
        objects_warnings(bytes, offsets, (n - 1) as nat) + match data_at(bytes, offsets[n - 1]) {
            Ok(s) if take_objects(bytes, offsets, (n - 1) as nat) is Ok => object_warnings(
                (n - 1) as nat,
                s,
            ),
            _ => seq![],
        }
    }
}

/// The number of quads of the first `n` objects.
pub open spec fn total_quads(objects: Seq<(Seq<char>, ObjectV)>, n: nat) -> nat
    decreases n,
{
    if n == 0 {
        0
    } else {
        total_quads(objects, (n - 1) as nat) + objects[n - 1].1.quads.len()
    }
}

/// An error that no instruction is the place of.
pub open spec fn plain_error(kind: ReadErrorKind) -> ReadError {
    ReadError { kind, instr: None }
}

/// What is read of a file behind the numbers at its start.
pub open spec fn take_contents<F: FileFormat>(
    format: F,
    bytes: Seq<u8>,
    start: StartV,
    s: Seq<u8>,
) -> Result<StdFileV, ReadError> {
    match format.take_extra(s) {
        Err(e) => Err(plain_error(e)),
        Ok((extra, s)) => match take_u32s(s, start.num_objects as nat) {
            Err(e) => Err(plain_error(e)),
            Ok((offsets, _)) => match take_objects(bytes, offsets, offsets.len()) {
                Err(e) => Err(plain_error(e)),
                Ok(objects) => if total_quads(objects, objects.len()) != start.num_quads {
                    Err(
                        plain_error(
                            ReadErrorKind::QuadCount { expected: start.num_quads },
                        ),
                    )
                } else {
                    take_tail(format, bytes, start, extra, objects)
                },
            },
        },
    }
}

/// What is read of the instances and the script of a file.
pub open spec fn take_tail<F: FileFormat>(
    format: F,
    bytes: Seq<u8>,
    start: StartV,
    extra: ExtraV,
    objects: Seq<(Seq<char>, ObjectV)>,
) -> Result<StdFileV, ReadError> {
    match data_at(bytes, start.instances_offset) {
        Err(e) => Err(plain_error(e)),
        Ok(s) => match take_instances(s, objects, seq![]) {
            Err(e) => Err(plain_error(e)),
            Ok(instances) => match data_at(bytes, start.script_offset) {
                Err(e) => Err(plain_error(e)),
                Ok(s) => match take_instrs(
                    format.instr_format_spec(),
                    s,
                    seq![],
                    0,
                    None,
                ) {
                    Err(e) => Err(e),
                    Ok(script) => Ok(
                        StdFileV { unknown: start.unknown, objects, instances, script, extra },
                    ),
                },
            },
        },
    }
}

/// What is read of a file.
pub open spec fn parse_std<F: FileFormat>(format: F, bytes: Seq<u8>) -> Result<
    StdFileV,
    ReadError,
> {
    match take_start(bytes) {
        Err(e) => Err(plain_error(e)),
        Ok((start, s)) => take_contents(format, bytes, start, s),
    }
}

/// The warnings that are given when the script of a file is read, if the reading gets there.
pub open spec fn script_warnings<F: FileFormat>(
    format: F,
    bytes: Seq<u8>,
    start: StartV,
    objects: Seq<(Seq<char>, ObjectV)>,
) -> Seq<Warning> {
    if total_quads(objects, objects.len()) != start.num_quads {
        seq![]
    } else {
        match data_at(bytes, start.instances_offset) {
            Err(_) => seq![],
            Ok(s) => if take_instances(s, objects, seq![]) is Err {
                seq![]
            } else {
                match data_at(bytes, start.script_offset) {
                    Err(_) => seq![],
                    Ok(s) => instrs_warnings(format.instr_format_spec(), s, 0, None),
                }
            },
        }
    }
}

/// The warnings that are given when what stands behind the numbers at the start of a file is read:
/// those of the objects, and those of the script.
pub open spec fn contents_warnings<F: FileFormat>(
    format: F,
    bytes: Seq<u8>,
    start: StartV,
    s: Seq<u8>,
) -> Seq<Warning> {
    match format.take_extra(s) {
        Err(_) => seq![],
        Ok((_, s)) => match take_u32s(s, start.num_objects as nat) {
            Err(_) => seq![],
            Ok((offsets, _)) => objects_warnings(bytes, offsets, offsets.len())
                + match take_objects(bytes, offsets, offsets.len()) {
                Err(_) => seq![],
                Ok(objects) => script_warnings(format, bytes, start, objects),
            },
        },
    }
}

/// The warnings that are given when a file is read.
pub open spec fn read_warnings<F: FileFormat>(format: F, bytes: Seq<u8>) -> Seq<Warning> {
    match take_start(bytes) {
        Err(_) => seq![],
        Ok((start, s)) => contents_warnings(format, bytes, start, s),
    }
}

// -----------------------------------------------------------------------------

fn fail<T>(kind: ReadErrorKind) -> (r: Result<T, ReadError>)
    ensures
        r == Err::<T, ReadError>(plain_error(kind)),
{
    Err(ReadError { kind, instr: None })
}

/// Start reading at an offset of a file.
fn reader_at(bytes: &[u8], offset: u32) -> (r: ReadResult<BinReader>)
    ensures
        match data_at(bytes@, offset) {
            Ok(s) => r matches Ok(f) && f.wf() && f.rest() == s && f.bytes == bytes,
            Err(e) => r matches Err(k) && k == e,
        },
{
    if offset as u64 > bytes.len() as u64 {
        return Err(ReadErrorKind::BadOffset { offset });
    }
    Ok(BinReader::new(bytes, offset as usize))
}

fn read_objects(bytes: &[u8], offsets: &Vec<u32>, warnings: &mut Vec<Warning>) -> (r: ReadResult<
    IndexMap<String, Object>,
>)
    ensures
        final(warnings)@ == old(warnings)@ + objects_warnings(bytes@, offsets@, offsets@.len()),
        match take_objects(bytes@, offsets@, offsets@.len()) {
            Ok(objects) => r matches Ok(m) && objects_view(m) == objects,
            Err(e) => r matches Err(k) && k == e,
        },
{
    let mut objects = new_objects();
    let mut i: usize = 0;
    assert(objects_view(objects) =~= seq![]);
    let ghost given = warnings@;
    assert(given + objects_warnings(bytes@, offsets@, 0) =~= given);
    while i < offsets.len()
        invariant
            i <= offsets@.len(),
            take_objects(bytes@, offsets@, i as nat) == Ok::<
                Seq<(Seq<char>, ObjectV)>,
                ReadErrorKind,
            >(objects_view(objects)),
            object_entries(objects).len() == i,
            forall|j: int|
                0 <= j < i ==> (#[trigger] object_entries(objects)[j]).0 == object_name(j as nat),
            given == old(warnings)@,
            warnings@ == given + objects_warnings(bytes@, offsets@, i as nat),
        decreases offsets@.len() - i,
    {
        proof {
            if take_objects(bytes@, offsets@, (i + 1) as nat) is Err {
                lemma_take_objects_stop(bytes@, offsets@, (i + 1) as nat, offsets@.len());
            }
        }
        let key = numbered_name("object", i as u64);
        let mut f = match reader_at(bytes, offsets[i]) {
            Ok(f) => f,
            Err(e) => {
                assert(warnings@ =~= given + objects_warnings(bytes@, offsets@, (i + 1) as nat));
                return Err(e);
            },
        };
        let read = read_object(i, &mut f, warnings);
        assert(warnings@ =~= given + objects_warnings(bytes@, offsets@, (i + 1) as nat));
        let value = match read {
            Ok(x) => x,
            Err(e) => return Err(e),
        };
        let ghost entries = object_entries(objects);
        let ghost v = value@;
        proof {
            lemma_key_index_view(entries, object_name(i as nat));
            if key_index(entries, object_name(i as nat)) is Some {
                let k = key_index(entries, object_name(i as nat))->0;
                assert(entries[k].0 == object_name(k as nat));
                lemma_numbered_name_injective("object"@, i as nat, k as nat);
            }
            lemma_insert_view(entries, object_name(i as nat), value);
        }
        insert_object(&mut objects, key, value);
        assert(objects_view(objects) =~= with_entry(
            entries.map_values(|e: (Seq<char>, Object)| (e.0, e.1@)),
            object_name(i as nat),
            v,
        ));
        i = i + 1;
    }
    Ok(objects)
}

proof fn lemma_take_objects_stop(bytes: Seq<u8>, offsets: Seq<u32>, m: nat, n: nat)
    requires
        m <= n,
        take_objects(bytes, offsets, m) is Err,
    ensures
        take_objects(bytes, offsets, n) == take_objects(bytes, offsets, m),
        objects_warnings(bytes, offsets, n) == objects_warnings(bytes, offsets, m),
    decreases n,
{
    if m < n {
        lemma_take_objects_stop(bytes, offsets, m, (n - 1) as nat);
        let before = objects_warnings(bytes, offsets, (n - 1) as nat);
        assert(before + seq![] =~= before);
    }
}

/// Tell whether the objects have a number of quads in all.
fn has_total_quads(objects: &IndexMap<String, Object>, expected: u16) -> (r: bool)
    ensures
        r == (total_quads(objects_view(*objects), objects_view(*objects).len()) == expected),
{
    let ghost views = objects_view(*objects);
    let n: usize = num_objects(objects);
    let mut remaining: usize = expected as usize;
    let mut i: usize = 0;
    while i < n
        invariant
            i <= n,
            n == views.len(),
            views == objects_view(*objects),
            remaining + total_quads(views, i as nat) == expected,
        decreases n - i,
    {
        if let Some((_, object)) = object_at(objects, i) {
            assert(views[i as int].1 == object@);
            assert(object@.quads.len() == object.quads@.len());
            if object.quads.len() > remaining {
                proof {
                    lemma_total_quads_grows(views, (i + 1) as nat, n as nat);
                }
                return false;
            }
            remaining = remaining - object.quads.len();
        }
        i = i + 1;
    }
    remaining == 0
}

proof fn lemma_total_quads_grows(objects: Seq<(Seq<char>, ObjectV)>, m: nat, n: nat)
    requires
        m <= n,
    ensures
        total_quads(objects, m) <= total_quads(objects, n),
    decreases n,
{
    if m < n {
        lemma_total_quads_grows(objects, m, (n - 1) as nat);
    }
}

fn read_instances(f: &mut BinReader, objects: &IndexMap<String, Object>) -> (r: ReadResult<
    Vec<Instance>,
>)
    requires
        old(f).wf(),
    ensures
        match take_instances(old(f).rest(), objects_view(*objects), seq![]) {
            Ok(xs) => r matches Ok(v) && instances_view(v@) == xs,
            Err(e) => r matches Err(k) && k == e,
        },
{
    let mut out: Vec<Instance> = Vec::new();
    assert(instances_view(out@) =~= seq![]);
    loop
        invariant
            f.wf(),
            take_instances(old(f).rest(), objects_view(*objects), seq![]) == take_instances(
                f.rest(),
                objects_view(*objects),
                instances_view(out@),
            ),
        decreases f.rest().len(),
    {
        proof {
            lemma_take_instance_shrinks(f.rest(), objects_view(*objects));
        }
        let ghost v = instances_view(out@);
        match read_instance(f, objects) {
            Err(e) => return Err(e),
            Ok(None) => return Ok(out),
            Ok(Some(x)) => {
                let ghost xv = x@;
                out.push(x);
                assert(instances_view(out@) =~= v.push(xv));
            },
        }
    }
}

/// Read the objects, instances and script of a file.
pub fn read_std<F: FileFormat>(format: &F, bytes: &[u8], warnings: &mut Vec<Warning>) -> (r: Result<
    StdFile,
    ReadError,
>)
    ensures
        final(warnings)@ == old(warnings)@ + read_warnings(*format, bytes@),
        match parse_std(*format, bytes@) {
            Ok(x) => r matches Ok(v) && v@ == x && format.accepts(v@.extra),
            Err(e) => r matches Err(k) && k == e,
        },
{
    proof {
        reveal(take_start);
    }
    let ghost given = warnings@;
    assert(given + seq![] =~= given);
    let mut f = BinReader::new(bytes, 0);
    assert(f.rest() =~= bytes@);
    let num_objects: u16 = match f.read_u16() {
        Ok(x) => x,
        Err(e) => return fail(e),
    };
    let num_quads: u16 = match f.read_u16() {
        Ok(x) => x,
        Err(e) => return fail(e),
    };
    let instances_offset: u32 = match f.read_u32() {
        Ok(x) => x,
        Err(e) => return fail(e),
    };
    let script_offset: u32 = match f.read_u32() {
        Ok(x) => x,
        Err(e) => return fail(e),
    };
    let unknown: u32 = match f.read_u32() {
        Ok(x) => x,
        Err(e) => return fail(e),
    };
    let ghost start = StartV {
        num_objects,
        num_quads,
        instances_offset,
        script_offset,
        unknown,
    };
    assert(parse_std(*format, bytes@) == take_contents(*format, bytes@, start, f.rest()));
    assert(read_warnings(*format, bytes@) == contents_warnings(*format, bytes@, start, f.rest()));
    let ghost contents = f.rest();
    proof {
        format.lemma_extra(arbitrary(), contents);
    }
    let extra = match format.read_extra(&mut f) {
        Ok(x) => x,
        Err(e) => return fail(e),
    };
    let ghost table = f.rest();
    let mut offsets: Vec<u32> = Vec::new();
    let mut i: u16 = 0;
    assert(offsets@ =~= seq![]);
    while i < num_objects
        invariant
            i <= num_objects,
            num_objects == start.num_objects,
            f.wf(),
            take_u32s(table, i as nat) == Ok::<(Seq<u32>, Seq<u8>), ReadErrorKind>(
                (offsets@, f.rest()),
            ),
            offsets@.len() == i,
            parse_std(*format, bytes@) == take_contents(*format, bytes@, start, contents),
            format.take_extra(contents) == Ok::<(ExtraV, Seq<u8>), ReadErrorKind>((extra@, table)),
            read_warnings(*format, bytes@) == contents_warnings(*format, bytes@, start, contents),
            warnings@ == given,
            given == old(warnings)@,
            given + seq![] == given,
        decreases num_objects - i,
    {
        match f.read_u32() {
            Ok(x) => offsets.push(x),
            Err(e) => {
                proof {
                    lemma_take_u32s_stop(table, (i + 1) as nat, num_objects as nat);
                }
                return fail(e);
            },
        }
        i = i + 1;
    }
    let read = read_objects(bytes, &offsets, warnings);
    let ghost of_objects = objects_warnings(bytes@, offsets@, offsets@.len());
    assert(given + (of_objects + seq![]) =~= warnings@);
    let objects = match read {
        Ok(x) => x,
        Err(e) => return fail(e),
    };
    if !has_total_quads(&objects, num_quads) {
        return fail(ReadErrorKind::QuadCount { expected: num_quads });
    }
    let mut at_instances = match reader_at(bytes, instances_offset) {
        Ok(x) => x,
        Err(e) => return fail(e),
    };
    let instances = match read_instances(&mut at_instances, &objects) {
        Ok(x) => x,
        Err(e) => return fail(e),
    };
    let mut at_script = match reader_at(bytes, script_offset) {
        Ok(x) => x,
        Err(e) => return fail(e),
    };
    proof {
        assert(at_script.rest().len() <= bytes@.len());
        assert(bytes.len() == bytes@.len());
    }
    let ghost of_script = instrs_warnings(format.instr_format_spec(), at_script.rest(), 0, None);
    assert(given + (of_objects + of_script) =~= warnings@ + of_script);
    let script = match read_instrs(&mut at_script, format.instr_format(), 0, None, warnings) {
        Ok(x) => x,
        Err(e) => return Err(e),
    };
    Ok(StdFile { unknown, objects, instances, script, extra })
}

proof fn lemma_take_u32s_stop(s: Seq<u8>, m: nat, n: nat)
    requires
        m <= n,
        take_u32s(s, m) is Err,
    ensures
        take_u32s(s, n) == take_u32s(s, m),
    decreases n,
{
    if m < n {
        lemma_take_u32s_stop(s, m, (n - 1) as nat);
    }
}

// -----------------------------------------------------------------------------

/// The first `n` objects, one after another.
pub open spec fn objects_bytes(objects: Seq<(Seq<char>, ObjectV)>, n: nat) -> Seq<u8>
    decreases n,
{
    if n == 0 {
        seq![]
    } else {
        objects_bytes(objects, (n - 1) as nat) + object_bytes((n - 1) as nat, objects[n - 1].1)
    }
}

/// The warnings that are given when the first `n` objects are written.
pub open spec fn strip_warnings<F: FileFormat>(
    format: F,
    objects: Seq<(Seq<char>, ObjectV)>,
    n: nat,
) -> Seq<Warning>
    decreases n,
{
    if n == 0 {
        seq![]
    } else {
        strip_warnings(format, objects, (n - 1) as nat) + quads_warnings(
            format,
            objects[n - 1].1.quads,
        )
    }
}

/// The parts of a file whose places the start of the file and the table tell.
pub ghost struct PartsV {
    pub extra: Seq<u8>,
    pub objects: Seq<(Seq<char>, ObjectV)>,
    pub instances: Seq<u8>,
    pub script: Seq<u8>,
}

impl PartsV {
    /// Where the objects begin.
    pub open spec fn base(self) -> nat {
        16 + self.extra.len() + 4 * self.objects.len()
    }

    pub open spec fn object_offset(self, i: nat) -> nat {
        self.base() + objects_bytes(self.objects, i).len()
    }

    pub open spec fn instances_offset(self) -> nat {
        self.object_offset(self.objects.len())
    }

    pub open spec fn script_offset(self) -> nat {
        self.instances_offset() + self.instances.len()
    }

    pub open spec fn size(self) -> nat {
        self.script_offset() + self.script.len()
    }

    /// The offsets of the first `k` objects; the others are zero.
    pub open spec fn table(self, k: nat) -> Seq<u32> {
        Seq::new(
            self.objects.len(),
            |i: int|
                if i < k {
                    (self.object_offset(i as nat) as usize) as u32
                } else {
                    0u32
                },
        )
    }

    /// A file of these parts, with some numbers at its start and a table of offsets.
    pub open spec fn layout(self, start: StartV, table: Seq<u32>) -> Seq<u8> {
        start_bytes(start) + self.extra + u32s_bytes(table) + objects_bytes(
            self.objects,
            self.objects.len(),
        ) + self.instances + self.script
    }
}

/// The parts of the binary form of a file.
pub open spec fn parts_of<F: FileFormat>(format: F, x: StdFileV) -> Result<
    PartsV,
    WriteError<Seq<char>>,
> {
    match format.extra_bytes(x.extra) {
        Err(e) => Err(e),
        Ok(extra) => match instances_bytes(x.instances, x.objects, x.instances.len()) {
            Err(e) => Err(e),
            Ok(instances) => Ok(
                PartsV {
                    extra,
                    objects: x.objects,
                    instances: instances + ones_dwords(4),
                    script: instrs_bytes(format.instr_format_spec(), x.script)
                        + format.instr_format_spec().terminal_bytes(),
                },
            ),
        },
    }
}

/// The numbers at the start of a file.  Counts are cut to 16 bits and offsets to 32.
pub open spec fn start_of(x: StdFileV, parts: PartsV) -> StartV {
    StartV {
        num_objects: (x.objects.len() as usize) as u16,
        num_quads: (total_quads(x.objects, x.objects.len()) % 0x1_0000) as u16,
        instances_offset: (parts.instances_offset() as usize) as u32,
        script_offset: (parts.script_offset() as usize) as u32,
        unknown: x.unknown,
    }
}

/// The binary form of a file.
pub open spec fn std_bytes<F: FileFormat>(format: F, x: StdFileV) -> Result<
    Seq<u8>,
    WriteError<Seq<char>>,
> {
    match parts_of(format, x) {
        Err(e) => Err(e),
        Ok(parts) => Ok(parts.layout(start_of(x, parts), parts.table(x.objects.len()))),
    }
}

/// The warnings that are given when a file is written: one for each strip in a file of a game that
/// has none, unless the writing fails before the objects.
pub open spec fn write_warnings<F: FileFormat>(format: F, x: StdFileV) -> Seq<Warning> {
    if format.extra_bytes(x.extra) is Err {
        seq![]
    } else {
        strip_warnings(format, x.objects, x.objects.len())
    }
}

/// The numbers at the start of a file as they are written first, with no offsets yet.
pub open spec fn first_start_of(x: StdFileV) -> StartV {
    StartV {
        num_objects: (x.objects.len() as usize) as u16,
        num_quads: (total_quads(x.objects, x.objects.len()) % 0x1_0000) as u16,
        instances_offset: 0,
        script_offset: 0,
        unknown: x.unknown,
    }
}

/// What is there of a file when its writing fails: everything before the string that is too long
/// or the instance without an object, with zeros in place of the offsets.
pub open spec fn unfinished_bytes<F: FileFormat>(format: F, x: StdFileV) -> Seq<u8> {
    match format.extra_bytes(x.extra) {
        Err(_) => start_bytes(first_start_of(x)) + format.extra_written(x.extra),
        Ok(extra) => start_bytes(first_start_of(x)) + extra + u32s_bytes(
            Seq::new(x.objects.len(), |i: int| 0u32),
        ) + objects_bytes(x.objects, x.objects.len()) + instances_written(
            x.instances,
            x.objects,
            x.instances.len(),
        ),
    }
}

proof fn lemma_u32s_bytes(xs: Seq<u32>, k: int)
    requires
        0 <= k < xs.len(),
    ensures
        u32s_bytes(xs) == u32s_bytes(xs.take(k)) + u32_bytes(xs[k]) + u32s_bytes(xs.skip(k + 1)),
    decreases xs.len(),
{
    lemma_u32s_bytes_len(xs);
    if k == xs.len() - 1 {
        assert(xs.take(k) =~= xs.drop_last());
        assert(xs.skip(k + 1) =~= seq![]);
        assert(u32s_bytes(xs.skip(k + 1)) =~= seq![]);
        assert(u32s_bytes(xs) =~= u32s_bytes(xs.take(k)) + u32_bytes(xs[k]) + u32s_bytes(
            xs.skip(k + 1),
        ));
    } else {
        lemma_u32s_bytes(xs.drop_last(), k);
        assert(xs.drop_last().take(k) =~= xs.take(k));
        assert(xs.drop_last().skip(k + 1) =~= xs.skip(k + 1).drop_last());
        let a = u32s_bytes(xs.take(k)) + u32_bytes(xs[k]);
        let b = u32s_bytes(xs.skip(k + 1).drop_last());
        let c = u32_bytes(xs.last());
        assert((a + b) + c =~= a + (b + c));
    }
}

proof fn lemma_u32s_bytes_len(xs: Seq<u32>)
    ensures
        u32s_bytes(xs).len() == 4 * xs.len(),
    decreases xs.len(),
{
    if xs.len() > 0 {
        lemma_u32s_bytes_len(xs.drop_last());
    }
}

proof fn lemma_patch_middle(a: Seq<u8>, b: Seq<u8>, c: Seq<u8>, new: Seq<u8>)
    requires
        b.len() == new.len(),
    ensures
        patched(a + b + c, a.len() as int, new) == a + new + c,
{
    assert((a + b + c).take(a.len() as int) =~= a);
    assert((a + b + c).skip((a.len() + new.len()) as int) =~= c);
}

/// Writing one more offset into the table.
proof fn lemma_patch_table(parts: PartsV, start: StartV, k: nat)
    requires
        k < parts.objects.len(),
    ensures
        patched(
            parts.layout(start, parts.table(k)),
            (16 + parts.extra.len() + 4 * k) as int,
            u32_bytes((parts.object_offset(k) as usize) as u32),
        ) == parts.layout(start, parts.table(k + 1)),
{
    reveal(start_bytes);
    let old_table = parts.table(k);
    let new_table = parts.table(k + 1);
    let x = (parts.object_offset(k) as usize) as u32;
    lemma_u32s_bytes(old_table, k as int);
    lemma_u32s_bytes(new_table, k as int);
    lemma_u32s_bytes_len(old_table.take(k as int));
    assert(old_table.take(k as int) =~= new_table.take(k as int));
    assert(old_table.skip(k as int + 1) =~= new_table.skip(k as int + 1));
    let head = start_bytes(start) + parts.extra;
    let before = u32s_bytes(old_table.take(k as int));
    let after = u32s_bytes(old_table.skip(k as int + 1));
    let objs = objects_bytes(parts.objects, parts.objects.len());
    let tail = objs + parts.instances + parts.script;
    let a = head + before;
    let c = after + tail;
    assert(start_bytes(start).len() == 16);
    lemma_layout_split(head, before, u32_bytes(old_table[k as int]), after, objs, parts.instances, parts.script);
    lemma_layout_split(head, before, u32_bytes(x), after, objs, parts.instances, parts.script);
    lemma_patch_middle(a, u32_bytes(old_table[k as int]), c, u32_bytes(x));
}

proof fn lemma_layout_split(
    head: Seq<u8>,
    before: Seq<u8>,
    x: Seq<u8>,
    after: Seq<u8>,
    objs: Seq<u8>,
    instances: Seq<u8>,
    script: Seq<u8>,
)
    ensures
        head + (before + x + after) + objs + instances + script == (head + before) + x + (after + (
        objs + instances + script)),
{
    assert(head + (before + x + after) + objs + instances + script =~= (head + before) + x + (after
        + (objs + instances + script)));
}

/// Writing the two offsets at the start of a file.
proof fn lemma_patch_start(parts: PartsV, start: StartV, table: Seq<u32>, io: u32, so: u32)
    ensures
        patched(
            patched(parts.layout(start, table), 4, u32_bytes(io)),
            8,
            u32_bytes(so),
        ) == parts.layout(StartV { instances_offset: io, script_offset: so, ..start }, table),
{
    reveal(start_bytes);
    let counts = u16_bytes(start.num_objects) + u16_bytes(start.num_quads);
    let old_io = u32_bytes(start.instances_offset);
    let old_so = u32_bytes(start.script_offset);
    let unknown = u32_bytes(start.unknown);
    let objs = objects_bytes(parts.objects, parts.objects.len());
    let rest = parts.extra + u32s_bytes(table) + objs + parts.instances + parts.script;
    assert(counts.len() == 4);
    lemma_start_split(counts, old_io, old_so, unknown, parts.extra, u32s_bytes(table), objs, parts.instances, parts.script);
    lemma_start_split(counts, u32_bytes(io), old_so, unknown, parts.extra, u32s_bytes(table), objs, parts.instances, parts.script);
    lemma_start_split(counts, u32_bytes(io), u32_bytes(so), unknown, parts.extra, u32s_bytes(table), objs, parts.instances, parts.script);
    lemma_patch_middle(counts, old_io, old_so + unknown + rest, u32_bytes(io));
    let a = counts + u32_bytes(io);
    let c = unknown + rest;
    assert(counts + u32_bytes(io) + (old_so + unknown + rest) =~= a + old_so + c);
    assert(counts + u32_bytes(io) + (u32_bytes(so) + unknown + rest) =~= a + u32_bytes(so) + c);
    lemma_patch_middle(a, old_so, c, u32_bytes(so));
}

proof fn lemma_start_split(
    counts: Seq<u8>,
    io: Seq<u8>,
    so: Seq<u8>,
    unknown: Seq<u8>,
    extra: Seq<u8>,
    table: Seq<u8>,
    objs: Seq<u8>,
    instances: Seq<u8>,
    script: Seq<u8>,
)
    ensures
        (counts + io + so + unknown) + extra + table + objs + instances + script == counts + io + (so
            + unknown + (extra + table + objs + instances + script)),
{
    assert((counts + io + so + unknown) + extra + table + objs + instances + script =~= counts + io
        + (so + unknown + (extra + table + objs + instances + script)));
}

/// The number of quads of all objects, cut to 16 bits.
fn count_quads(objects: &IndexMap<String, Object>) -> (r: u16)
    ensures
        r == total_quads(objects_view(*objects), objects_view(*objects).len()) % 0x1_0000,
{
    let ghost views = objects_view(*objects);
    let n: usize = num_objects(objects);
    let mut sum: u32 = 0;
    let mut i: usize = 0;
    while i < n
        invariant
            i <= n,
            n == views.len(),
            views == objects_view(*objects),
            sum == total_quads(views, i as nat) % 0x1_0000,
        decreases n - i,
    {
        if let Some((_, object)) = object_at(objects, i) {
            assert(views[i as int].1 == object@);
            assert(object@.quads.len() == object.quads@.len());
            sum = (sum + (object.quads.len() % 0x1_0000) as u32) % 0x1_0000;
        }
        i = i + 1;
    }
    sum as u16
}

/// Write the numbers at the start of a file, with no offsets yet.
fn write_start(out: &mut Vec<u8>, std: &StdFile) -> (r: Ghost<StartV>)
    ensures
        r@ == first_start_of(std@),
        final(out)@ == old(out)@ + start_bytes(r@),
        start_bytes(r@).len() == 16,
{
    proof {
        reveal(start_bytes);
    }
    let n: usize = num_objects(&std.objects);
    let num_quads: u16 = count_quads(&std.objects);
    write_u16(out, n as u16);
    write_u16(out, num_quads);
    write_u32(out, 0);
    write_u32(out, 0);
    write_u32(out, std.unknown);
    let ghost start = StartV {
        num_objects: n as u16,
        num_quads,
        instances_offset: 0,
        script_offset: 0,
        unknown: std.unknown,
    };
    assert(out@ =~= old(out)@ + start_bytes(start));
    Ghost(start)
}

/// Write a table of offsets that are not known yet.
fn write_empty_table(out: &mut Vec<u8>, n: usize)
    ensures
        final(out)@ == old(out)@ + u32s_bytes(Seq::new(n as nat, |i: int| 0u32)),
{
    let ghost head = out@;
    let ghost no_offsets = Seq::new(n as nat, |i: int| 0u32);
    let mut i: usize = 0;
    assert(head + u32s_bytes(no_offsets.take(0)) =~= head);
    while i < n
        invariant
            i <= n,
            no_offsets == Seq::new(n as nat, |i: int| 0u32),
            out@ == head + u32s_bytes(no_offsets.take(i as int)),
        decreases n - i,
    {
        write_u32(out, 0);
        assert(no_offsets.take(i + 1).drop_last() =~= no_offsets.take(i as int));
        i = i + 1;
        assert(out@ =~= head + u32s_bytes(no_offsets.take(i as int)));
    }
    assert(no_offsets.take(n as int) =~= no_offsets);
}

/// Write all objects, and tell at which offset each of them begins.
fn write_objects<F: FileFormat>(
    out: &mut Vec<u8>,
    format: &F,
    objects: &IndexMap<String, Object>,
    warnings: &mut Vec<Warning>,
) -> (r: Vec<u32>)
    ensures
        final(warnings)@ == old(warnings)@ + strip_warnings(
            *format,
            objects_view(*objects),
            objects_view(*objects).len(),
        ),
        final(out)@ == old(out)@ + objects_bytes(
            objects_view(*objects),
            objects_view(*objects).len(),
        ),
        r@.len() == objects_view(*objects).len(),
        forall|j: int|
            0 <= j < r@.len() ==> #[trigger] r@[j] == ((old(out)@.len() + objects_bytes(
                objects_view(*objects),
                j as nat,
            ).len()) as usize) as u32,
{
    let ghost head = out@;
    let ghost views = objects_view(*objects);
    let n: usize = num_objects(objects);
    let mut offsets: Vec<u32> = Vec::new();
    let mut i: usize = 0;
    assert(head + objects_bytes(views, 0) =~= head);
    let ghost given = warnings@;
    assert(given + strip_warnings(*format, views, 0) =~= given);
    while i < n
        invariant
            i <= n,
            warnings@ == given + strip_warnings(*format, views, i as nat),
            n == views.len(),
            views == objects_view(*objects),
            head == old(out)@,
            out@ == head + objects_bytes(views, i as nat),
            offsets@.len() == i,
            forall|j: int|
                0 <= j < i ==> #[trigger] offsets@[j] == ((head.len() + objects_bytes(
                    views,
                    j as nat,
                ).len()) as usize) as u32,
        decreases n - i,
    {
        offsets.push(out.len() as u32);
        if let Some((_, object)) = object_at(objects, i) {
            assert(views[i as int].1 == object@);
            write_object(out, format, i, object, warnings);
        }
        i = i + 1;
        assert(warnings@ =~= given + strip_warnings(*format, views, i as nat));
        assert(out@ =~= head + objects_bytes(views, i as nat));
    }
    offsets
}

/// Write all instances, without the marker behind them.
fn write_instances(
    out: &mut Vec<u8>,
    instances: &Vec<Instance>,
    objects: &IndexMap<String, Object>,
) -> (r: Result<(), WriteError<Ident>>)
    ensures
        match instances_bytes(
            instances_view(instances@),
            objects_view(*objects),
            instances@.len(),
        ) {
            Ok(bytes) => r is Ok && final(out)@ == old(out)@ + bytes,
            Err(e) => r matches Err(k) && write_error_view(k) == e && final(out)@ == old(out)@
                + instances_written(
                instances_view(instances@),
                objects_view(*objects),
                instances@.len(),
            ),
        },
{
    let ghost head = out@;
    let ghost views = instances_view(instances@);
    let ghost objs = objects_view(*objects);
    let mut i: usize = 0;
    assert(head + seq![] =~= head);
    while i < instances.len()
        invariant
            i <= instances@.len(),
            views == instances_view(instances@),
            objs == objects_view(*objects),
            head == old(out)@,
            instances_bytes(views, objs, i as nat) matches Ok(done) && out@ == head + done,
        decreases instances@.len() - i,
    {
        let ghost done = instances_bytes(views, objs, i as nat)->Ok_0;
        assert(views[i as int] == instances@[i as int]@);
        match write_instance(out, &instances[i], objects) {
            Ok(_) => {},
            Err(e) => {
                proof {
                    assert(instances_written(views, objs, i as nat) == done);
                    lemma_instances_stop(views, objs, (i + 1) as nat, views.len());
                }
                return Err(e);
            },
        }
        proof {
            let bytes = instance_bytes(views[i as int], objs)->Ok_0;
            assert(out@ =~= head + (done + bytes));
        }
        i = i + 1;
    }
    Ok(())
}

/// Fill in the offsets of a file whose parts are all there.
fn patch_offsets(
    out: &mut Vec<u8>,
    offsets: &Vec<u32>,
    table_pos: usize,
    instances_offset: u32,
    script_offset: u32,
    Ghost(parts): Ghost<PartsV>,
    Ghost(start): Ghost<StartV>,
)
    requires
        offsets@.len() == parts.objects.len(),
        table_pos == 16 + parts.extra.len(),
        forall|j: int|
            0 <= j < offsets@.len() ==> #[trigger] offsets@[j] == (parts.object_offset(j as nat)
                as usize) as u32,
        old(out)@ == parts.layout(start, parts.table(0)),
    ensures
        final(out)@ == parts.layout(
            StartV { instances_offset, script_offset, ..start },
            parts.table(parts.objects.len()),
        ),
{
    let n: usize = offsets.len();
    let mut i: usize = 0;
    while i < n
        invariant
            i <= n,
            n == parts.objects.len(),
            offsets@.len() == n,
            table_pos == 16 + parts.extra.len(),
            forall|j: int|
                0 <= j < n ==> #[trigger] offsets@[j] == (parts.object_offset(j as nat) as usize)
                    as u32,
            out@ == parts.layout(start, parts.table(i as nat)),
        decreases n - i,
    {
        proof {
            lemma_patch_table(parts, start, i as nat);
            lemma_layout_len(parts, start, parts.table(i as nat));
        }
        let len: usize = out.len();
        assert(table_pos + 4 * i + 4 <= len);
        patch_u32(out, table_pos + 4 * i, offsets[i]);
        i = i + 1;
    }
    proof {
        lemma_patch_start(
            parts,
            start,
            parts.table(n as nat),
            instances_offset,
            script_offset,
        );
        lemma_layout_len(parts, start, parts.table(n as nat));
    }
    patch_u32(out, 4, instances_offset);
    patch_u32(out, 8, script_offset);
}

proof fn lemma_layout_len(parts: PartsV, start: StartV, table: Seq<u32>)
    ensures
        parts.layout(start, table).len() == 16 + parts.extra.len() + 4 * table.len()
            + objects_bytes(parts.objects, parts.objects.len()).len() + parts.instances.len()
            + parts.script.len(),
{
    reveal(start_bytes);
    lemma_u32s_bytes_len(table);
}

/// Write a file.  Gives the bytes that were written, and whether that is all of them or what kept
/// the rest from being written.
pub fn write_std<F: FileFormat>(format: &F, std: &StdFile, warnings: &mut Vec<Warning>) -> (r: (
    Vec<u8>,
    Result<(), WriteError<Ident>>,
))
    requires
        format.accepts(std.extra@),
        forall|i: int|
            0 <= i < std.script@.len() ==> all_raw((#[trigger] std.script@[i])@.args),
    ensures
        match std_bytes(*format, std@) {
            Ok(bytes) => r.1 is Ok && r.0@ == bytes,
            Err(e) => r.1 matches Err(k) && write_error_view(k) == e && r.0@ == unfinished_bytes(
                *format,
                std@,
            ),
        },
        final(warnings)@ == old(warnings)@ + write_warnings(*format, std@),
{
    assert(warnings@ + seq![] =~= warnings@);
    let ghost x = std@;
    let mut out: Vec<u8> = Vec::new();
    let Ghost(start) = write_start(&mut out, std);
    match format.write_extra(&mut out, &std.extra) {
        Ok(_) => {},
        Err(e) => {
            assert(out@ =~= unfinished_bytes(*format, x));
            return (out, Err(e));
        },
    }
    let table_pos: usize = out.len();
    write_empty_table(&mut out, num_objects(&std.objects));
    proof {
        lemma_u32s_bytes_len(Seq::new(x.objects.len(), |i: int| 0u32));
    }
    let offsets = write_objects(&mut out, format, &std.objects, warnings);
    let instances_offset: usize = out.len();
    match write_instances(&mut out, &std.instances, &std.objects) {
        Ok(_) => {},
        Err(e) => {
            assert(out@ =~= unfinished_bytes(*format, x));
            return (out, Err(e));
        },
    }
    write_terminal_instance(&mut out);
    let script_offset: usize = out.len();
    write_instrs(&mut out, format.instr_format(), &std.script);

    // now the places of everything are known
    let ghost parts = parts_of(*format, x)->Ok_0;
    proof {
        let objs = objects_bytes(x.objects, x.objects.len());
        let inst = instances_bytes(x.instances, x.objects, x.instances.len())->Ok_0;
        let code = instrs_bytes(format.instr_format_spec(), x.script);
        let end = format.instr_format_spec().terminal_bytes();
        assert(parts.table(0) =~= Seq::new(x.objects.len(), |i: int| 0u32));
        lemma_write_order(
            start_bytes(start),
            parts.extra,
            u32s_bytes(parts.table(0)),
            objs,
            inst,
            ones_dwords(4),
            code,
            end,
        );
    }
    patch_offsets(
        &mut out,
        &offsets,
        table_pos,
        instances_offset as u32,
        script_offset as u32,
        Ghost(parts),
        Ghost(start),
    );
    (out, Ok(()))
}

proof fn lemma_write_order(
    start: Seq<u8>,
    extra: Seq<u8>,
    table: Seq<u8>,
    objs: Seq<u8>,
    inst: Seq<u8>,
    marker: Seq<u8>,
    code: Seq<u8>,
    end: Seq<u8>,
)
    ensures
        Seq::<u8>::empty() + start + extra + table + objs + inst + marker + code + end == start
            + extra + table + objs + (inst + marker) + (code + end),
        (Seq::<u8>::empty() + start + extra + table + objs + inst + marker).len() == start.len()
            + extra.len() + table.len() + objs.len() + (inst + marker).len(),
{
    assert(Seq::<u8>::empty() + start + extra + table + objs + inst + marker + code + end =~= start
        + extra + table + objs + (inst + marker) + (code + end));
}

proof fn lemma_instances_stop(
    xs: Seq<InstanceV>,
    objects: Seq<(Seq<char>, ObjectV)>,
    m: nat,
    n: nat,
)
    requires
        m <= n,
        instances_bytes(xs, objects, m) is Err,
    ensures
        instances_bytes(xs, objects, n) == instances_bytes(xs, objects, m),
        instances_written(xs, objects, n) == instances_written(xs, objects, m),
    decreases n,
{
    if m < n {
        lemma_instances_stop(xs, objects, m, (n - 1) as nat);
    }
}

// -----------------------------------------------------------------------------

/// Whether nothing of a file is cut off when it is written: its instances are of objects that it
/// has, and everything can be counted with the bits that there are.
pub open spec fn std_valid<F: FileFormat>(format: F, x: StdFileV) -> bool {
    &&& format.accepts(x.extra)
    &&& format.extra_fits(x.extra)
    &&& x.objects.len() < 0xffff
    &&& forall|i: int| 0 <= i < x.objects.len() ==> object_wf((#[trigger] x.objects[i]).1)
    &&& total_quads(x.objects, x.objects.len()) <= 0xffff
    &&& forall|i: int|
        0 <= i < x.instances.len() ==> instance_valid(#[trigger] x.instances[i], x.objects)
    &&& forall|i: int|
        0 <= i < x.script.len() ==> format.instr_format_spec().writable(#[trigger] x.script[i])
    &&& parts_of(format, x) matches Ok(parts) && parts.size() <= u32::MAX
}

pub open spec fn instance_valid(x: InstanceV, objects: Seq<(Seq<char>, ObjectV)>) -> bool {
    key_index(objects, x.object) is Some && x.pos.len() == 3
}

proof fn lemma_key_index(objects: Seq<(Seq<char>, ObjectV)>, key: Seq<char>)
    ensures
        key_index(objects, key) matches Some(i) ==> 0 <= i < objects.len() && objects[i].0 == key,
    decreases objects.len(),
{
    if objects.len() > 0 {
        lemma_key_index(objects.drop_last(), key);
    }
}

proof fn lemma_u32s_round_trip(xs: Seq<u32>, n: nat, rest: Seq<u8>)
    requires
        n <= xs.len(),
    ensures
        take_u32s(u32s_bytes(xs.take(n as int)) + rest, n) == Ok::<
            (Seq<u32>, Seq<u8>),
            ReadErrorKind,
        >((xs.take(n as int), rest)),
    decreases n,
{
    if n == 0 {
        assert(xs.take(0) =~= seq![]);
        assert(u32s_bytes(xs.take(0)) + rest =~= rest);
    } else {
        let last = u32_bytes(xs[n - 1]);
        assert(xs.take(n as int).drop_last() =~= xs.take(n - 1));
        lemma_u32s_round_trip(xs, (n - 1) as nat, last + rest);
        lemma_u32_round_trip(xs[n - 1], rest);
        let before = u32s_bytes(xs.take(n - 1));
        assert((before + last) + rest =~= before + (last + rest));
        assert(xs.take(n as int) =~= xs.take(n - 1).push(xs[n - 1]));
    }
}

proof fn lemma_start_round_trip(x: StartV, rest: Seq<u8>)
    ensures
        take_start(start_bytes(x) + rest) == Ok::<(StartV, Seq<u8>), ReadErrorKind>((x, rest)),
        start_bytes(x).len() == 16,
{
    reveal(start_bytes);
    reveal(take_start);
    let t4 = u32_bytes(x.unknown) + rest;
    let t3 = u32_bytes(x.script_offset) + t4;
    let t2 = u32_bytes(x.instances_offset) + t3;
    let t1 = u16_bytes(x.num_quads) + t2;
    lemma_cat_5(
        u16_bytes(x.num_objects),
        u16_bytes(x.num_quads),
        u32_bytes(x.instances_offset),
        u32_bytes(x.script_offset),
        u32_bytes(x.unknown),
        rest,
    );
    lemma_u16_round_trip(x.num_objects, t1);
    lemma_u16_round_trip(x.num_quads, t2);
    lemma_u32_round_trip(x.instances_offset, t3);
    lemma_u32_round_trip(x.script_offset, t4);
    lemma_u32_round_trip(x.unknown, rest);
}

proof fn lemma_cat_5(
    a: Seq<u8>,
    b: Seq<u8>,
    c: Seq<u8>,
    d: Seq<u8>,
    e: Seq<u8>,
    rest: Seq<u8>,
)
    ensures
        (a + b + c + d + e) + rest == a + (b + (c + (d + (e + rest)))),
{
    assert((a + b + c + d + e) + rest =~= a + (b + (c + (d + (e + rest)))));
}

/// The objects behind the first `m` follow them.
proof fn lemma_objects_bytes_prefix(objects: Seq<(Seq<char>, ObjectV)>, m: nat, n: nat) -> (rest:
    Seq<u8>)
    requires
        m <= n,
    ensures
        objects_bytes(objects, n) == objects_bytes(objects, m) + rest,
    decreases n,
{
    if m == n {
        assert(objects_bytes(objects, n) =~= objects_bytes(objects, m) + Seq::<u8>::empty());
        Seq::<u8>::empty()
    } else {
        let before = lemma_objects_bytes_prefix(objects, m, (n - 1) as nat);
        let last = object_bytes((n - 1) as nat, objects[n - 1].1);
        let rest = before + last;
        assert((objects_bytes(objects, m) + before) + last =~= objects_bytes(objects, m) + rest);
        rest
    }
}

proof fn lemma_skip_prefix(a: Seq<u8>, b: Seq<u8>)
    ensures
        (a + b).skip(a.len() as int) == b,
{
    assert((a + b).skip(a.len() as int) =~= b);
}

proof fn lemma_one_object(
    head: Seq<u8>,
    before: Seq<u8>,
    one: Seq<u8>,
    rest: Seq<u8>,
    tail: Seq<u8>,
)
    ensures
        head + (before + one + rest) + tail == (head + before) + (one + (rest + tail)),
{
    assert(head + (before + one + rest) + tail =~= (head + before) + (one + (rest + tail)));
}

/// The objects are where the table says that they are.
proof fn lemma_objects_round_trip(
    head: Seq<u8>,
    tail: Seq<u8>,
    parts: PartsV,
    n: nat,
)
    requires
        n <= parts.objects.len(),
        head.len() == parts.base(),
        parts.size() <= u32::MAX,
        parts.objects.len() <= 0xffff,
        forall|i: int|
            0 <= i < parts.objects.len() ==> (#[trigger] parts.objects[i]).0 == object_name(
                i as nat,
            ) && object_wf(parts.objects[i].1),
    ensures
        objects_warnings(
            head + objects_bytes(parts.objects, parts.objects.len()) + tail,
            parts.table(parts.objects.len()),
            n,
        ) == Seq::<Warning>::empty(),
        take_objects(
            head + objects_bytes(parts.objects, parts.objects.len()) + tail,
            parts.table(parts.objects.len()),
            n,
        ) == Ok::<Seq<(Seq<char>, ObjectV)>, ReadErrorKind>(parts.objects.take(n as int)),
    decreases n,
{
    let objects = parts.objects;
    let total = objects.len();
    let all = objects_bytes(objects, total);
    let bytes = head + all + tail;
    if n == 0 {
        assert(objects.take(0) =~= seq![]);
    } else {
        let i = (n - 1) as nat;
        lemma_objects_round_trip(head, tail, parts, i);
        let rest = lemma_objects_bytes_prefix(objects, n, total);
        let before = objects_bytes(objects, i);
        let one = object_bytes(i, objects[n - 1].1);
        let offset = parts.object_offset(i);
        assert(all == before + one + rest);
        assert(parts.table(total)[n - 1] == offset);
        lemma_one_object(head, before, one, rest, tail);
        lemma_skip_prefix(head + before, one + (rest + tail));
        law_object_round_trip(i, objects[n - 1].1, rest + tail);
        assert(objects[n - 1] == (object_name(i), objects[n - 1].1));
        assert(objects.take(n as int) =~= objects.take(n - 1).push(objects[n - 1]));
    }
}

proof fn lemma_instances_bytes_first(
    xs: Seq<InstanceV>,
    objects: Seq<(Seq<char>, ObjectV)>,
    n: nat,
)
    requires
        0 < n <= xs.len(),
        instances_bytes(xs, objects, n) is Ok,
    ensures
        instance_bytes(xs[0], objects) is Ok,
        instances_bytes(xs.skip(1), objects, (n - 1) as nat) is Ok,
        instances_bytes(xs, objects, n)->Ok_0 == instance_bytes(xs[0], objects)->Ok_0
            + instances_bytes(xs.skip(1), objects, (n - 1) as nat)->Ok_0,
    decreases n,
{
    reveal_with_fuel(instances_bytes, 2);
    if n == 1 {
        let one = instance_bytes(xs[0], objects)->Ok_0;
        assert(Seq::<u8>::empty() + one =~= one + Seq::<u8>::empty());
    } else {
        lemma_instances_bytes_first(xs, objects, (n - 1) as nat);
        let first = instance_bytes(xs[0], objects)->Ok_0;
        let mid = instances_bytes(xs.skip(1), objects, (n - 2) as nat)->Ok_0;
        let last = instance_bytes(xs[n - 1], objects)->Ok_0;
        assert(xs.skip(1)[n - 2] == xs[n - 1]);
        assert((first + mid) + last =~= first + (mid + last));
    }
}

/// An instance of an object that there is is read back as it was written.
proof fn lemma_instance_round_trip(
    x: InstanceV,
    objects: Seq<(Seq<char>, ObjectV)>,
    after: Seq<u8>,
)
    requires
        objects.len() < 0xffff,
        instance_valid(x, objects),
    ensures
        instance_bytes(x, objects) is Ok,
        take_instance(instance_bytes(x, objects)->Ok_0 + after, objects) == Ok::<
            (Option<InstanceV>, Seq<u8>),
            ReadErrorKind,
        >((Some(x), after)),
{
    reveal(take_instance);
    lemma_key_index(objects, x.object);
    let index = key_index(objects, x.object)->0;
    let number = (index as usize) as u16;
    assert(number == index);
    let t2 = f32s_bytes(x.pos) + after;
    let t1 = u16_bytes(x.unknown) + t2;
    lemma_cat_3(u16_bytes(number), u16_bytes(x.unknown), f32s_bytes(x.pos), after);
    lemma_u16_round_trip(number, t1);
    lemma_u16_round_trip(x.unknown, t2);
    lemma_f32s_round_trip(x.pos, after);
}

proof fn lemma_cat_3(a: Seq<u8>, b: Seq<u8>, c: Seq<u8>, rest: Seq<u8>)
    ensures
        (a + b + c) + rest == a + (b + (c + rest)),
{
    assert((a + b + c) + rest =~= a + (b + (c + rest)));
}

proof fn lemma_terminal_instance(objects: Seq<(Seq<char>, ObjectV)>, rest: Seq<u8>)
    ensures
        take_instance(ones_dwords(4) + rest, objects) matches Ok((None, _)),
{
    reveal(take_instance);
    reveal_with_fuel(ones_dwords, 5);
    let tail = u32_bytes(0xffff_ffff) + u32_bytes(0xffff_ffff) + u32_bytes(0xffff_ffff) + rest;
    assert(u32_bytes(0xffff_ffff) =~= u16_bytes(0xffff) + u16_bytes(0xffff));
    assert(ones_dwords(4) + rest =~= u16_bytes(0xffff) + (u16_bytes(0xffff) + tail));
    lemma_u16_round_trip(0xffff, u16_bytes(0xffff) + tail);
    lemma_u16_round_trip(0xffff, tail);
}

proof fn lemma_instances_round_trip(
    xs: Seq<InstanceV>,
    objects: Seq<(Seq<char>, ObjectV)>,
    done: Seq<InstanceV>,
    rest: Seq<u8>,
)
    requires
        objects.len() < 0xffff,
        instances_bytes(xs, objects, xs.len()) is Ok,
        forall|i: int| 0 <= i < xs.len() ==> instance_valid(#[trigger] xs[i], objects),
    ensures
        take_instances(
            instances_bytes(xs, objects, xs.len())->Ok_0 + ones_dwords(4) + rest,
            objects,
            done,
        ) == Ok::<Seq<InstanceV>, ReadErrorKind>(done + xs),
    decreases xs.len(),
{
    let body = instances_bytes(xs, objects, xs.len())->Ok_0;
    let marker = ones_dwords(4);
    let s = body + marker + rest;
    if xs.len() == 0 {
        assert(s =~= marker + rest);
        lemma_terminal_instance(objects, rest);
        assert(done + xs =~= done);
    } else {
        lemma_instances_bytes_first(xs, objects, xs.len());
        let tail = xs.skip(1);
        let first = instance_bytes(xs[0], objects)->Ok_0;
        let mid = instances_bytes(tail, objects, tail.len())->Ok_0;
        let after = mid + marker + rest;
        lemma_more_instances(first, mid, marker, rest);
        assert(instance_valid(xs[0], objects));
        lemma_instance_round_trip(xs[0], objects, after);
        lemma_take_instance_shrinks(s, objects);
        assert forall|i: int| 0 <= i < tail.len() implies instance_valid(
            #[trigger] tail[i],
            objects,
        ) by {
            assert(tail[i] == xs[i + 1]);
        }
        lemma_instances_round_trip(tail, objects, done.push(xs[0]), rest);
        assert(done.push(xs[0]) + tail =~= done + xs);
    }
}

proof fn lemma_more_instances(first: Seq<u8>, mid: Seq<u8>, marker: Seq<u8>, rest: Seq<u8>)
    ensures
        (first + mid) + marker + rest == first + (mid + marker + rest),
{
    assert((first + mid) + marker + rest =~= first + (mid + marker + rest));
}

/// A file whose objects have the names that objects get when they are read is read back as it
/// was written.
proof fn lemma_std_round_trip<F: FileFormat>(format: F, x: StdFileV)
    requires
        std_valid(format, x),
        forall|i: int|
            0 <= i < x.objects.len() ==> (#[trigger] x.objects[i]).0 == object_name(i as nat),
    ensures
        std_bytes(format, x) matches Ok(bytes) && parse_std(format, bytes) == Ok::<
            StdFileV,
            ReadError,
        >(x),
        (forall|s: Seq<u8>|
            (#[trigger] format.instr_format_spec().instr_warnings(s)).len() == 0) ==> read_warnings(
            format,
            std_bytes(format, x)->Ok_0,
        ) == Seq::<Warning>::empty(),
{
    let parts = parts_of(format, x)->Ok_0;
    let n = x.objects.len();
    let start = start_of(x, parts);
    let table = parts.table(n);
    let objs = objects_bytes(x.objects, n);
    let bytes = parts.layout(start, table);
    let tail = parts.instances + parts.script;
    let prefix = start_bytes(start);

    // the start, the header and the table
    let after_table = objs + parts.instances + parts.script;
    let after_extra = u32s_bytes(table) + after_table;
    let after_start = parts.extra + after_extra;
    lemma_read_order(prefix, parts.extra, u32s_bytes(table), objs, parts.instances, parts.script);
    lemma_start_round_trip(start, after_start);
    format.lemma_extra_round_trip(x.extra, after_extra);
    assert(table.take(n as int) =~= table);
    lemma_u32s_round_trip(table, n, after_table);

    // the objects
    let head = prefix + parts.extra + u32s_bytes(table);
    lemma_u32s_bytes_len(table);
    lemma_objects_round_trip(head, tail, parts, n);
    assert(x.objects.take(n as int) =~= x.objects);
    assert(start.num_quads == total_quads(x.objects, n));

    // the instances
    lemma_skip_prefix(head + objs, parts.instances + parts.script);
    let inst = instances_bytes(x.instances, x.objects, x.instances.len())->Ok_0;
    lemma_instances_round_trip(x.instances, x.objects, seq![], parts.script);
    assert(seq![] + x.instances =~= x.instances);

    // the script
    lemma_skip_prefix(head + objs + parts.instances, parts.script);
    let instrs = format.instr_format_spec();
    law_instrs_round_trip(instrs, x.script, seq![], seq![], 0);
    assert(instrs_bytes(instrs, x.script) + instrs.terminal_bytes() + Seq::<u8>::empty()
        =~= parts.script);
    assert(seq![] + x.script =~= x.script);
    if forall|s: Seq<u8>| (#[trigger] instrs.instr_warnings(s)).len() == 0 {
        law_missing_end_marker_is_told(instrs, parts.script, 0, None);
        assert(Seq::<Warning>::empty() + seq![] =~= seq![]);
    }
}

proof fn lemma_read_order(
    start: Seq<u8>,
    extra: Seq<u8>,
    table: Seq<u8>,
    objs: Seq<u8>,
    instances: Seq<u8>,
    script: Seq<u8>,
)
    ensures
        start + extra + table + objs + instances + script == start + (extra + (table + (objs
            + instances + script))),
        start + extra + table + objs + instances + script == (start + extra + table) + objs + (
        instances + script),
        start + extra + table + objs + instances + script == ((start + extra + table) + objs) + (
        instances + script),
{
    assert(start + extra + table + objs + instances + script =~= start + (extra + (table + (objs
        + instances + script))));
    assert(start + extra + table + objs + instances + script =~= (start + extra + table) + objs + (
    instances + script));
}

/// Objects with the names that objects get when they are read.
pub open spec fn numbered_objects(objects: Seq<(Seq<char>, ObjectV)>) -> Seq<
    (Seq<char>, ObjectV),
> {
    Seq::new(objects.len(), |i: int| (object_name(i as nat), objects[i].1))
}

/// An instance of a numbered object.
pub open spec fn numbered_instance(x: InstanceV, objects: Seq<(Seq<char>, ObjectV)>) -> InstanceV {
    InstanceV { object: object_name(key_index(objects, x.object)->0 as nat), ..x }
}

/// A file with its objects named by their numbers; names are not part of the binary form.
pub open spec fn numbered(x: StdFileV) -> StdFileV {
    StdFileV {
        objects: numbered_objects(x.objects),
        instances: x.instances.map_values(|i: InstanceV| numbered_instance(i, x.objects)),
        ..x
    }
}

proof fn lemma_numbered_key(objects: Seq<(Seq<char>, ObjectV)>, n: nat, k: nat)
    requires
        k < n <= objects.len(),
    ensures
        key_index(numbered_objects(objects).take(n as int), object_name(k)) == Some(k as int),
    decreases n,
{
    let named = numbered_objects(objects).take(n as int);
    assert(named.drop_last() =~= numbered_objects(objects).take(n - 1));
    if k < n - 1 {
        lemma_numbered_key(objects, (n - 1) as nat, k);
    } else {
        lemma_key_index(named.drop_last(), object_name(k));
        if key_index(named.drop_last(), object_name(k)) is Some {
            let j = key_index(named.drop_last(), object_name(k))->0;
            lemma_numbered_name_injective("object"@, j as nat, k);
        }
        assert(named.last().0 == object_name(k));
    }
}

proof fn lemma_numbered_objects_bytes(objects: Seq<(Seq<char>, ObjectV)>, n: nat)
    requires
        n <= objects.len(),
    ensures
        objects_bytes(numbered_objects(objects), n) == objects_bytes(objects, n),
        total_quads(numbered_objects(objects), n) == total_quads(objects, n),
    decreases n,
{
    if n > 0 {
        lemma_numbered_objects_bytes(objects, (n - 1) as nat);
    }
}

proof fn lemma_numbered_instances_bytes(x: StdFileV, n: nat)
    requires
        n <= x.instances.len(),
        forall|i: int|
            0 <= i < x.instances.len() ==> instance_valid(#[trigger] x.instances[i], x.objects),
    ensures
        instances_bytes(numbered(x).instances, numbered(x).objects, n) == instances_bytes(
            x.instances,
            x.objects,
            n,
        ),
        forall|i: int|
            0 <= i < n ==> instance_valid(
                #[trigger] numbered(x).instances[i],
                numbered(x).objects,
            ),
    decreases n,
{
    if n > 0 {
        lemma_numbered_instances_bytes(x, (n - 1) as nat);
        let inst = x.instances[n - 1];
        assert(instance_valid(inst, x.objects));
        lemma_key_index(x.objects, inst.object);
        let k = key_index(x.objects, inst.object)->0;
        let total = x.objects.len();
        lemma_numbered_key(x.objects, total, k as nat);
        assert(numbered_objects(x.objects).take(total as int) =~= numbered_objects(x.objects));
        assert(numbered(x).instances[n - 1] == numbered_instance(inst, x.objects));
        assert(instance_bytes(numbered(x).instances[n - 1], numbered(x).objects) == instance_bytes(
            inst,
            x.objects,
        ));
    }
}

/// A file is read back as it was written, but for the names of its objects, which become their
/// numbers.  No warning is given, unless of single instructions.
pub proof fn law_std_round_trip<F: FileFormat>(format: F, x: StdFileV)
    requires
        std_valid(format, x),
    ensures
        std_bytes(format, x) matches Ok(bytes) && parse_std(format, bytes) == Ok::<
            StdFileV,
            ReadError,
        >(numbered(x)),
        (forall|s: Seq<u8>|
            (#[trigger] format.instr_format_spec().instr_warnings(s)).len() == 0) ==> read_warnings(
            format,
            std_bytes(format, x)->Ok_0,
        ) == Seq::<Warning>::empty(),
        (forall|i: int|
            0 <= i < x.objects.len() ==> (#[trigger] x.objects[i]).0 == object_name(i as nat))
            ==> numbered(x) == x,
{
    let y = numbered(x);
    let n = x.objects.len();
    lemma_numbered_objects_bytes(x.objects, n);
    lemma_numbered_instances_bytes(x, x.instances.len());
    let px = parts_of(format, x)->Ok_0;
    let py = parts_of(format, y)->Ok_0;
    assert forall|i: nat| i <= n implies #[trigger] py.object_offset(i) == px.object_offset(i) by {
        lemma_numbered_objects_bytes(x.objects, i);
    }
    assert(py.table(n) =~= px.table(n));
    assert(py.layout(start_of(y, py), py.table(n)) == px.layout(start_of(x, px), px.table(n)));
    assert forall|i: int| 0 <= i < y.objects.len() implies object_wf((#[trigger] y.objects[i]).1) by {
        assert(object_wf(x.objects[i].1));
    }
    lemma_std_round_trip(format, y);
    if forall|i: int|
        0 <= i < x.objects.len() ==> (#[trigger] x.objects[i]).0 == object_name(i as nat) {
        assert(y.objects =~= x.objects);
        assert forall|i: int| 0 <= i < x.instances.len() implies #[trigger] y.instances[i]
            == x.instances[i] by {
            assert(instance_valid(x.instances[i], x.objects));
            lemma_key_index(x.objects, x.instances[i].object);
        }
        assert(y.instances =~= x.instances);
    }
}

} // verus!
