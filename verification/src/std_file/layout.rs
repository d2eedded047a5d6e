//! Where everything is in the bytes of a STD file.

use crate::binary_io::{take_f32s, take_u16, take_u32, u16_of, u32_of};
use crate::float32::F32;
use crate::instr::format::{lemma_args_bytes_push, take_args, take_instrs, InstrFormat};
use crate::instr::{InstrArgV, InstrV, RawArg};
use crate::std_file::binary::{
    law_std_round_trip, lemma_take_instance_shrinks, lemma_take_quad_shrinks, numbered,
    object_warnings, objects_warnings, parse_std, read_warnings, std_bytes, std_valid,
    take_contents, take_instance, take_instances, take_object, take_objects, take_quad, take_quads,
    take_start, take_u32s, total_quads,
};
use crate::std_file::format::{
    strip_zeros, take_header, take_string_128, take_strings, zero_dwords, FileFormat,
    FileFormat06, FileFormat10, InstrFormat06, InstrFormat10,
};
use crate::std_file::{ExtraV, InstanceV, ObjectV, QuadExtraV, QuadV, StdFileV};
use vstd::prelude::*;

verus! {

/// The number in two bytes, the lower one first.
#[verifier::opaque]
pub open spec fn u16_at(b: Seq<u8>, i: int) -> int {
    b[i] + 0x100 * b[i + 1]
}

/// The number in four bytes, the lowest one first.
#[verifier::opaque]
pub open spec fn u32_at(b: Seq<u8>, i: int) -> int {
    b[i] + 0x100 * b[i + 1] + 0x1_0000 * b[i + 2] + 0x100_0000 * b[i + 3]
}

/// Whether a vector is at a place: its numbers one after the other.
pub open spec fn floats_at(b: Seq<u8>, i: int, xs: Seq<F32>) -> bool {
    &&& i + 4 * xs.len() <= b.len()
    &&& forall|k: int| 0 <= k < xs.len() ==> (#[trigger] xs[k]).bits == u32_at(b, i + 4 * k)
}

/// Whether a string is in a field of 128 bytes, with zeros behind it.
pub open spec fn string_at(b: Seq<u8>, i: int, s: Seq<u8>) -> bool {
    &&& i + 128 <= b.len()
    &&& s.len() <= 128
    &&& forall|k: int| 0 <= k < s.len() ==> #[trigger] s[k] == b[i + k]
    &&& forall|k: int| i + s.len() <= k < i + 128 ==> #[trigger] b[k] == 0
    &&& s.len() > 0 ==> s[s.len() - 1] != 0
}

/// The number of bytes of a quad.
pub open spec fn quad_len(q: QuadV) -> nat {
    match q.extra {
        QuadExtraV::Rect { .. } => 0x1c,
        QuadExtraV::Strip { .. } => 0x24,
    }
}

/// Whether a quad is at a place: its kind, its size, its number, a zero, and its vectors.
#[verifier::opaque]
pub open spec fn quad_at(b: Seq<u8>, i: int, q: QuadV) -> bool {
    &&& i + quad_len(q) <= b.len()
    &&& u16_at(b, i + 2) == quad_len(q)
    &&& u16_at(b, i + 4) == q.anm_script
    &&& u16_at(b, i + 6) == 0
    &&& match q.extra {
        QuadExtraV::Rect { pos, size } => {
            &&& u16_at(b, i) == 0
            &&& pos.len() == 3
            &&& size.len() == 2
            &&& floats_at(b, i + 8, pos)
            &&& floats_at(b, i + 20, size)
        },
        QuadExtraV::Strip { start, end, width } => {
            &&& u16_at(b, i) == 1
            &&& start.len() == 3
            &&& end.len() == 3
            &&& floats_at(b, i + 8, start)
            &&& floats_at(b, i + 20, end)
            &&& width.bits == u32_at(b, i + 32)
        },
    }
}

/// The number of bytes of the first `n` quads.
pub open spec fn quads_len(quads: Seq<QuadV>, n: nat) -> nat
    decreases n,
{
    if n == 0 {
        0
    } else {
        quads_len(quads, (n - 1) as nat) + quad_len(quads[n - 1])
    }
}

/// Whether an object is at a place.  Its number comes first; then what is not known, its position
/// and its size, and its quads with a marker behind them.
pub open spec fn object_is_at(b: Seq<u8>, i: int, x: ObjectV) -> bool {
    let end = i + 28 + quads_len(x.quads, x.quads.len());
    &&& end + 4 <= b.len()
    &&& u16_at(b, i + 2) == x.unknown
    &&& x.pos.len() == 3
    &&& x.size.len() == 3
    &&& floats_at(b, i + 4, x.pos)
    &&& floats_at(b, i + 16, x.size)
    &&& forall|k: int|
        0 <= k < x.quads.len() ==> quad_at(
            b,
            i + 28 + quads_len(x.quads, k as nat),
            #[trigger] x.quads[k],
        )
    &&& u16_at(b, end) == 0xffff
    &&& u16_at(b, end + 2) == 4
}

/// Whether an instance is at a place: the number of its object, what is not known, its position.
pub open spec fn instance_is_at(
    b: Seq<u8>,
    i: int,
    x: InstanceV,
    objects: Seq<(Seq<char>, ObjectV)>,
) -> bool {
    &&& i + 16 <= b.len()
    &&& u16_at(b, i) < objects.len()
    &&& u16_at(b, i) != 0xffff
    &&& objects[u16_at(b, i)].0 == x.object
    &&& u16_at(b, i + 2) == x.unknown
    &&& x.pos.len() == 3
    &&& floats_at(b, i + 4, x.pos)
}

/// Whether an instruction is at a place: its time, its opcode, a size, and its arguments, none of
/// which is a register.
#[verifier::opaque]
pub open spec fn instr_is_at(b: Seq<u8>, i: int, instr: InstrV, size: nat) -> bool {
    &&& i + 8 + 4 * instr.args.len() <= b.len()
    &&& u32_at(b, i) == (instr.time as u32)
    &&& u16_at(b, i + 4) == instr.opcode
    &&& u16_at(b, i + 6) == size
    &&& instr.opcode != 0xffff
    &&& forall|k: int|
        0 <= k < instr.args.len() ==> {
            &&& (#[trigger] instr.args[k]) is Raw
            &&& instr.args[k]->Raw_0.bits == u32_at(b, i + 8 + 4 * k)
            &&& !instr.args[k]->Raw_0.is_var
        }
}

/// Whether the instructions of an early script are at a place, with the end marker behind them.
/// Each has three arguments, and what it tells of its size is the size of these.
pub open spec fn script_is_at_06(b: Seq<u8>, i: int, script: Seq<InstrV>) -> bool {
    &&& forall|k: int|
        0 <= k < script.len() ==> (#[trigger] script[k]).args.len() == 3 && instr_is_at(
            b,
            i + 20 * k,
            script[k],
            12,
        )
    &&& i + 20 * script.len() + 8 <= b.len()
    &&& u16_at(b, i + 20 * script.len() + 4) == 0xffff
}

/// The number of bytes of the first `n` instructions of a later script.
pub open spec fn code_len_10(script: Seq<InstrV>, n: nat) -> nat
    decreases n,
{
    if n == 0 {
        0
    } else {
        code_len_10(script, (n - 1) as nat) + 8 + 4 * script[n - 1].args.len()
    }
}

/// Whether the instructions of a later script are at a place, with the end marker behind them.
/// Each tells its own size.
pub open spec fn script_is_at_10(b: Seq<u8>, i: int, script: Seq<InstrV>) -> bool {
    &&& forall|k: int|
        0 <= k < script.len() ==> instr_is_at(
            b,
            i + code_len_10(script, k as nat),
            #[trigger] script[k],
            8 + 4 * script[k].args.len(),
        )
    &&& i + code_len_10(script, script.len()) + 8 <= b.len()
    &&& u16_at(b, i + code_len_10(script, script.len()) + 4) == 0xffff
}

/// The number of quads that the first `n` objects have in all.
pub open spec fn num_quads(objects: Seq<(Seq<char>, ObjectV)>, n: nat) -> nat
    decreases n,
{
    if n == 0 {
        0
    } else {
        objects[n - 1].1.quads.len() + num_quads(objects, (n - 1) as nat)
    }
}

/// Whether everything but the header and the script of a file is where it belongs, with a header
/// of a size.  The numbers of objects and quads come first; then the offsets of the instances and
/// of the script, what is not known, the header, and the offsets of the objects.
pub open spec fn file_is_at(b: Seq<u8>, header: int, x: StdFileV) -> bool {
    let n = x.objects.len() as int;
    let m = x.instances.len() as int;
    &&& 16 + header + 4 * n <= b.len()
    &&& u16_at(b, 0) == n
    &&& u16_at(b, 2) == num_quads(x.objects, x.objects.len())
    &&& u32_at(b, 12) == x.unknown
    &&& forall|k: int|
        0 <= k < n ==> object_is_at(
            b,
            u32_at(b, 16 + header + 4 * k),
            (#[trigger] x.objects[k]).1,
        )
    &&& forall|k: int|
        0 <= k < m ==> instance_is_at(
            b,
            u32_at(b, 4) + 16 * k,
            #[trigger] x.instances[k],
            x.objects,
        )
    &&& u32_at(b, 4) + 16 * m + 4 <= b.len()
    &&& u16_at(b, u32_at(b, 4) + 16 * m) == 0xffff
}

/// Whether an early file is where it belongs.  Its header is the name of the stage, the names of
/// four pieces of music, and their paths.
pub open spec fn is_file_06(b: Seq<u8>, x: StdFileV) -> bool {
    &&& file_is_at(b, 1152, x)
    &&& script_is_at_06(b, u32_at(b, 8), x.script)
    &&& x.extra matches ExtraV::Th06 { stage_name, bgm }
    &&& bgm.len() == 4
    &&& string_at(b, 16, stage_name)
    &&& forall|k: int|
        0 <= k < 4 ==> string_at(b, 16 + 128 * (1 + k), (#[trigger] bgm[k]).name) && string_at(
            b,
            16 + 128 * (5 + k),
            bgm[k].path,
        )
}

/// Whether a later file is where it belongs.  Its header is the path of a file with images.
pub open spec fn is_file_10(b: Seq<u8>, x: StdFileV) -> bool {
    &&& file_is_at(b, 128, x)
    &&& script_is_at_10(b, u32_at(b, 8), x.script)
    &&& x.extra matches ExtraV::Th10 { anm_path }
    &&& string_at(b, 16, anm_path)
}

// =============================================================================

proof fn lemma_u16(s: Seq<u8>)
    ensures
        take_u16(s) matches Ok((x, rest)) ==> x == u16_at(s, 0) && rest == s.skip(2) && s.len()
            >= 2,
        s.len() >= 2 ==> 0 <= u16_at(s, 0) < 0x1_0000,
{
    reveal(u16_at);
}

pub proof fn lemma_u32(s: Seq<u8>)
    ensures
        take_u32(s) matches Ok((x, rest)) ==> x == u32_at(s, 0) && rest == s.skip(4) && s.len()
            >= 4,
        s.len() >= 4 ==> 0 <= u32_at(s, 0) < 0x1_0000_0000,
{
    reveal(u32_at);
}

/// What is at a place of the rest is at the place behind what was skipped.
pub proof fn lemma_skip(s: Seq<u8>, n: int)
    requires
        0 <= n <= s.len(),
    ensures
        s.skip(n).len() == s.len() - n,
        forall|i: int|
            0 <= i && i + 2 <= s.len() - n ==> #[trigger] u16_at(s.skip(n), i) == u16_at(s, n + i),
        forall|i: int|
            0 <= i && i + 4 <= s.len() - n ==> #[trigger] u32_at(s.skip(n), i) == u32_at(s, n + i),
        forall|m: int| 0 <= m <= s.len() - n ==> #[trigger] s.skip(n).skip(m) == s.skip(n + m),
{
    reveal(u16_at);
    reveal(u32_at);
    assert forall|m: int| 0 <= m <= s.len() - n implies #[trigger] s.skip(n).skip(m) == s.skip(
        n + m,
    ) by {
        assert(s.skip(n).skip(m) =~= s.skip(n + m));
    }
}

proof fn lemma_floats(s: Seq<u8>, n: nat)
    ensures
        take_f32s(s, n) matches Ok((xs, rest)) ==> {
            &&& xs.len() == n
            &&& floats_at(s, 0, xs)
            &&& rest == s.skip(4 * n as int)
            &&& 4 * n <= s.len()
        },
    decreases n,
{
    if n == 0 {
        assert(s.skip(0) =~= s);
    } else {
        lemma_floats(s, (n - 1) as nat);
        if let Ok((xs, rest)) = take_f32s(s, (n - 1) as nat) {
            lemma_skip(s, 4 * (n - 1));
            lemma_u32(rest);
        }
    }
}

/// A vector in the rest is at the place behind what was skipped.
proof fn lemma_floats_skip(s: Seq<u8>, n: int, i: int, xs: Seq<F32>)
    requires
        0 <= n <= s.len(),
        0 <= i,
        floats_at(s.skip(n), i, xs),
    ensures
        floats_at(s, n + i, xs),
{
    lemma_skip(s, n);
    assert forall|k: int| 0 <= k < xs.len() implies (#[trigger] xs[k]).bits == u32_at(
        s,
        n + i + 4 * k,
    ) by {
        assert(u32_at(s.skip(n), i + 4 * k) == u32_at(s, n + (i + 4 * k)));
    }
}

/// A quad that is read is at the start of the data, or there is the marker.
#[verifier::rlimit(40)]
pub proof fn law_quad_layout(s: Seq<u8>)
    ensures
        match take_quad(s) {
            Ok((Some(q), rest)) => quad_at(s, 0, q) && quad_len(q) <= s.len() && rest == s.skip(
                quad_len(q) as int,
            ),
            Ok((None, rest)) => s.len() >= 4 && u16_at(s, 0) == 0xffff && u16_at(s, 2) == 4
                && rest == s.skip(4),
            Err(_) => true,
        },
{
    reveal(take_quad);
    reveal(quad_at);
    lemma_u16(s);
    if s.len() >= 8 {
        lemma_skip(s, 2);
        lemma_skip(s, 4);
        lemma_skip(s, 6);
        lemma_skip(s, 8);
        lemma_u16(s.skip(2));
        lemma_u16(s.skip(4));
        lemma_u16(s.skip(6));
        assert(u16_at(s.skip(2), 0) == u16_at(s, 2));
        assert(u16_at(s.skip(4), 0) == u16_at(s, 4));
        assert(u16_at(s.skip(6), 0) == u16_at(s, 6));
        assert(s.skip(2).skip(2) == s.skip(4));
        assert(s.skip(4).skip(2) == s.skip(6));
        assert(s.skip(6).skip(2) == s.skip(8));
        lemma_floats(s.skip(8), 3);
        if s.len() >= 20 {
            assert(s.skip(8).skip(12) == s.skip(20));
            lemma_skip(s, 20);
            lemma_floats(s.skip(20), 2);
            lemma_floats(s.skip(20), 3);
            if s.len() >= 32 {
                lemma_skip(s, 32);
                assert(s.skip(20).skip(12) == s.skip(32));
                lemma_u32(s.skip(32));
                if s.len() >= 36 {
                    assert(u32_at(s.skip(32), 0) == u32_at(s, 32));
                    assert(s.skip(32).skip(4) == s.skip(36));
                }
            }
            if s.len() >= 28 {
                assert(s.skip(20).skip(8) == s.skip(28));
            }
        }
    } else if s.len() >= 4 {
        lemma_skip(s, 2);
        lemma_u16(s.skip(2));
        assert(u16_at(s.skip(2), 0) == u16_at(s, 2));
        assert(s.skip(2).skip(2) == s.skip(4));
    }
    let kind = u16_of(s);
    assert(kind as i16 == 0i16 ==> kind == 0) by (bit_vector);
    assert(kind as i16 == 1i16 ==> kind == 1) by (bit_vector);
    assert(kind as i16 == -1i16 ==> kind == 0xffffu16) by (bit_vector);
    if let Ok((Some(q), rest)) = take_quad(s) {
        match q.extra {
            QuadExtraV::Rect { pos, size } => {
                lemma_floats_skip(s, 8, 0, pos);
                lemma_floats_skip(s, 20, 0, size);
            },
            QuadExtraV::Strip { start, end, .. } => {
                lemma_floats_skip(s, 8, 0, start);
                lemma_floats_skip(s, 20, 0, end);
            },
        }
    }
}

proof fn lemma_quad_skip(s: Seq<u8>, n: int, i: int, q: QuadV)
    requires
        0 <= n <= s.len(),
        0 <= i,
        quad_at(s.skip(n), i, q),
    ensures
        quad_at(s, n + i, q),
{
    reveal(quad_at);
    lemma_skip(s, n);
    let r = s.skip(n);
    assert(u16_at(r, i) == u16_at(s, n + i));
    assert(u16_at(r, i + 2) == u16_at(s, n + (i + 2)));
    assert(u16_at(r, i + 4) == u16_at(s, n + (i + 4)));
    assert(u16_at(r, i + 6) == u16_at(s, n + (i + 6)));
    match q.extra {
        QuadExtraV::Rect { pos, size } => {
            lemma_floats_skip(s, n, i + 8, pos);
            lemma_floats_skip(s, n, i + 20, size);
        },
        QuadExtraV::Strip { start, end, .. } => {
            lemma_floats_skip(s, n, i + 8, start);
            lemma_floats_skip(s, n, i + 20, end);
            assert(u32_at(r, i + 32) == u32_at(s, n + (i + 32)));
        },
    }
}

#[verifier::rlimit(40)]
proof fn lemma_quads(s: Seq<u8>, done: Seq<QuadV>)
    ensures
        take_quads(s, done) matches Ok((quads, rest)) ==> {
            let skipped = quads_len(quads, done.len());
            let end = quads_len(quads, quads.len()) - skipped;
            &&& done.len() <= quads.len()
            &&& skipped <= quads_len(quads, quads.len())
            &&& quads.take(done.len() as int) == done
            &&& forall|k: int|
                done.len() <= k < quads.len() ==> skipped <= quads_len(quads, k as nat) && quad_at(
                    s,
                    quads_len(quads, k as nat) - skipped,
                    #[trigger] quads[k],
                )
            &&& end + 4 <= s.len()
            &&& u16_at(s, end) == 0xffff
            &&& u16_at(s, end + 2) == 4
        },
    decreases s.len(),
{
    lemma_take_quad_shrinks(s);
    law_quad_layout(s);
    match take_quad(s) {
        Err(_) => {},
        Ok((None, _)) => {
            assert(done.take(done.len() as int) =~= done);
        },
        Ok((Some(q), rest)) => {
            let l = quad_len(q) as int;
            lemma_skip(s, l);
            lemma_quads(rest, done.push(q));
            if let Ok((quads, _)) = take_quads(rest, done.push(q)) {
                let d = done.len();
                assert(quads.take(d as int + 1)[d as int] == q);
                assert(quads.take(d as int) =~= quads.take(d as int + 1).take(d as int));
                assert(done.push(q).take(d as int) =~= done);
                assert(quads_len(quads, d + 1) == quads_len(quads, d) + l);
                let skipped = quads_len(quads, d);
                let end = quads_len(quads, quads.len()) - skipped;
                assert(u16_at(rest, end - l) == u16_at(s, l + (end - l)));
                assert(u16_at(rest, end - l + 2) == u16_at(s, l + (end - l + 2)));
                assert forall|k: int| d <= k < quads.len() implies skipped <= quads_len(
                    quads,
                    k as nat,
                ) && quad_at(s, quads_len(quads, k as nat) - skipped, #[trigger] quads[k]) by {
                    if k > d {
                        lemma_quad_skip(
                            s,
                            l,
                            quads_len(quads, k as nat) - skipped - l,
                            quads[k],
                        );
                    }
                }
            }
        },
    }
}

/// An object that is read is at the start of the data: its number in the first two bytes, what is
/// not known in the next two, its position in the twelve behind them and its size in the twelve
/// behind these, and then its quads.
pub proof fn law_object_layout(s: Seq<u8>)
    ensures
        take_object(s) matches Ok((x, _)) ==> object_is_at(s, 0, x),
{
    reveal(take_object);
    if let Ok((x, _)) = take_object(s) {
        lemma_u16(s);
        lemma_skip(s, 2);
        lemma_u16(s.skip(2));
        assert(u16_at(s.skip(2), 0) == u16_at(s, 2));
        assert(s.skip(2).skip(2) == s.skip(4));
        lemma_skip(s, 4);
        lemma_floats(s.skip(4), 3);
        lemma_floats_skip(s, 4, 0, x.pos);
        assert(s.skip(4).skip(12) == s.skip(16));
        lemma_floats(s.skip(16), 3);
        lemma_floats_skip(s, 16, 0, x.size);
        lemma_skip(s, 16);
        assert(s.skip(16).skip(12) == s.skip(28));
        lemma_quads(s.skip(28), seq![]);
        lemma_skip(s, 28);
        assert forall|k: int| 0 <= k < x.quads.len() implies quad_at(
            s,
            28int + quads_len(x.quads, k as nat),
            #[trigger] x.quads[k],
        ) by {
            lemma_quad_skip(s, 28, quads_len(x.quads, k as nat) as int, x.quads[k]);
        }
        let end = quads_len(x.quads, x.quads.len()) as int;
        assert(u16_at(s.skip(28), end) == u16_at(s, 28 + end));
        assert(u16_at(s.skip(28), end + 2) == u16_at(s, 28 + (end + 2)));
    }
}

proof fn lemma_u16_skip(s: Seq<u8>, n: int, i: int)
    requires
        0 <= n,
        0 <= i,
        n + i + 2 <= s.len(),
    ensures
        u16_at(s.skip(n), i) == u16_at(s, n + i),
{
    reveal(u16_at);
}

proof fn lemma_object_skip(s: Seq<u8>, n: int, x: ObjectV)
    requires
        0 <= n <= s.len(),
        object_is_at(s.skip(n), 0, x),
    ensures
        object_is_at(s, n, x),
{
    let end = 28 + quads_len(x.quads, x.quads.len()) as int;
    lemma_u16_skip(s, n, 2);
    lemma_u16_skip(s, n, end);
    lemma_u16_skip(s, n, end + 2);
    lemma_floats_skip(s, n, 4, x.pos);
    lemma_floats_skip(s, n, 16, x.size);
    assert forall|k: int| 0 <= k < x.quads.len() implies quad_at(
        s,
        n + 28 + quads_len(x.quads, k as nat),
        #[trigger] x.quads[k],
    ) by {
        lemma_quad_skip(s, n, 28int + quads_len(x.quads, k as nat), x.quads[k]);
    }
}

/// An instance that is read is at the start of the data, or there is the marker.
pub proof fn law_instance_layout(s: Seq<u8>, objects: Seq<(Seq<char>, ObjectV)>)
    ensures
        match take_instance(s, objects) {
            Ok((Some(x), rest)) => instance_is_at(s, 0, x, objects) && rest == s.skip(16),
            Ok((None, _)) => s.len() >= 4 && u16_at(s, 0) == 0xffff,
            Err(_) => true,
        },
{
    reveal(take_instance);
    lemma_u16(s);
    if s.len() >= 4 {
        lemma_skip(s, 2);
        lemma_u16(s.skip(2));
        assert(u16_at(s.skip(2), 0) == u16_at(s, 2));
        assert(s.skip(2).skip(2) == s.skip(4));
        lemma_skip(s, 4);
        lemma_floats(s.skip(4), 3);
        if let Ok((Some(x), _)) = take_instance(s, objects) {
            lemma_floats_skip(s, 4, 0, x.pos);
            assert(s.skip(4).skip(12) == s.skip(16));
        }
    }
}

proof fn lemma_instance_skip(
    s: Seq<u8>,
    n: int,
    i: int,
    x: InstanceV,
    objects: Seq<(Seq<char>, ObjectV)>,
)
    requires
        0 <= n <= s.len(),
        0 <= i,
        instance_is_at(s.skip(n), i, x, objects),
    ensures
        instance_is_at(s, n + i, x, objects),
{
    lemma_skip(s, n);
    let r = s.skip(n);
    assert(u16_at(r, i) == u16_at(s, n + i));
    assert(u16_at(r, i + 2) == u16_at(s, n + (i + 2)));
    lemma_floats_skip(s, n, i + 4, x.pos);
}

proof fn lemma_instances(
    s: Seq<u8>,
    objects: Seq<(Seq<char>, ObjectV)>,
    done: Seq<InstanceV>,
)
    ensures
        take_instances(s, objects, done) matches Ok(xs) ==> {
            let end = 16 * (xs.len() - done.len());
            &&& done.len() <= xs.len()
            &&& xs.take(done.len() as int) == done
            &&& forall|k: int|
                done.len() <= k < xs.len() ==> instance_is_at(
                    s,
                    16 * (k - done.len()),
                    #[trigger] xs[k],
                    objects,
                )
            &&& end + 4 <= s.len()
            &&& u16_at(s, end) == 0xffff
        },
    decreases s.len(),
{
    lemma_take_instance_shrinks(s, objects);
    law_instance_layout(s, objects);
    match take_instance(s, objects) {
        Err(_) => {},
        Ok((None, _)) => {
            assert(done.take(done.len() as int) =~= done);
        },
        Ok((Some(x), rest)) => {
            lemma_skip(s, 16);
            lemma_instances(rest, objects, done.push(x));
            if let Ok(xs) = take_instances(rest, objects, done.push(x)) {
                let d = done.len() as int;
                assert(xs.take(d + 1)[d] == x);
                assert(xs.take(d) =~= xs.take(d + 1).take(d));
                assert(done.push(x).take(d) =~= done);
                let end = 16 * (xs.len() - d);
                assert(u16_at(rest, end - 16) == u16_at(s, 16 + (end - 16)));
                assert forall|k: int| d <= k < xs.len() implies instance_is_at(
                    s,
                    16 * (k - d),
                    #[trigger] xs[k],
                    objects,
                ) by {
                    if k > d {
                        lemma_instance_skip(s, 16, 16 * (k - d - 1), xs[k], objects);
                    }
                }
            }
        },
    }
}

// -----------------------------------------------------------------------------
// Instructions

proof fn lemma_args_layout(s: Seq<u8>, n: nat)
    ensures
        take_args(s, n, 0) matches Ok((args, rest)) ==> {
            &&& args.len() == n
            &&& 4 * n <= s.len()
            &&& rest == s.skip(4 * n as int)
            &&& forall|k: int|
                0 <= k < n ==> {
                    &&& (#[trigger] args[k]) is Raw
                    &&& args[k]->Raw_0.bits == u32_at(s, 4 * k)
                    &&& !args[k]->Raw_0.is_var
                }
        },
    decreases n,
{
    if n == 0 {
        assert(s.skip(0) =~= s);
    } else {
        lemma_u32(s);
        if let Ok((bits, rest)) = take_u32(s) {
            lemma_args_layout(rest, (n - 1) as nat);
            lemma_skip(s, 4);
            if let Ok((args, after)) = take_args(rest, (n - 1) as nat, 0) {
                assert(rest.skip(4 * (n - 1)) == s.skip(4 + 4 * (n - 1)));
                let all = take_args(s, n, 0)->Ok_0.0;
                assert forall|k: int| 0 <= k < n implies {
                    &&& (#[trigger] all[k]) is Raw
                    &&& all[k]->Raw_0.bits == u32_at(s, 4 * k)
                    &&& !all[k]->Raw_0.is_var
                } by {
                    if k > 0 {
                        assert(all[k] == args[k - 1]);
                        assert(u32_at(rest, 4 * (k - 1)) == u32_at(s, 4 + 4 * (k - 1)));
                    }
                }
            }
        }
    }
}

proof fn lemma_header_layout(s: Seq<u8>)
    ensures
        take_header(s) matches Ok(((time, opcode, size), rest)) ==> {
            &&& s.len() >= 8
            &&& u32_at(s, 0) == (time as u32)
            &&& u16_at(s, 4) == opcode
            &&& u16_at(s, 6) == size
            &&& rest == s.skip(8)
        },
{
    if let Ok(((time, opcode, size), rest)) = take_header(s) {
        lemma_u32(s);
        lemma_skip(s, 4);
        lemma_u16(s.skip(4));
        assert(u16_at(s.skip(4), 0) == u16_at(s, 4));
        assert(s.skip(4).skip(2) == s.skip(6));
        lemma_skip(s, 6);
        lemma_u16(s.skip(6));
        assert(u16_at(s.skip(6), 0) == u16_at(s, 6));
        assert(s.skip(6).skip(2) == s.skip(8));
        let t = u32_of(s);
        assert((t as i32) as u32 == t) by (bit_vector);
    }
}

proof fn lemma_instr_parts(s: Seq<u8>, instr: InstrV, size: nat)
    requires
        s.len() >= 8,
        u32_at(s, 0) == (instr.time as u32),
        u16_at(s, 4) == instr.opcode,
        u16_at(s, 6) == size,
        instr.opcode != 0xffff,
        take_args(s.skip(8), instr.args.len(), 0) matches Ok((args, _)) && args == instr.args,
    ensures
        instr_is_at(s, 0, instr, size),
{
    reveal(instr_is_at);
    lemma_skip(s, 8);
    lemma_args_layout(s.skip(8), instr.args.len());
    assert forall|k: int| 0 <= k < instr.args.len() implies {
        &&& (#[trigger] instr.args[k]) is Raw
        &&& instr.args[k]->Raw_0.bits == u32_at(s, 8 + 4 * k)
        &&& !instr.args[k]->Raw_0.is_var
    } by {
        assert(u32_at(s.skip(8), 4 * k) == u32_at(s, 8 + 4 * k));
    }
}

/// An early instruction that is read is at the start of the data, or there is the marker.
pub proof fn law_instr_layout_06(format: InstrFormat06, s: Seq<u8>)
    ensures
        match format.take_instr(s) {
            Ok((Some(instr), rest)) => instr.args.len() == 3 && instr_is_at(s, 0, instr, 12)
                && s.len() >= 20 && rest == s.skip(20),
            Ok((None, _)) => s.len() >= 8 && u16_at(s, 4) == 0xffff,
            Err(_) => true,
        },
{
    lemma_header_layout(s);
    if let Ok((Some(instr), rest)) = format.take_instr(s) {
        lemma_args_layout(s.skip(8), 3);
        lemma_skip(s, 8);
        assert(s.skip(8).skip(12) == s.skip(20));
        lemma_instr_parts(s, instr, 12);
    }
}

/// An early instruction with fewer than three arguments is written as if it had one more that is
/// zero.
pub proof fn law_early_instruction_is_padded(format: InstrFormat06, instr: InstrV)
    requires
        instr.args.len() < 3,
    ensures
        format.instr_bytes(instr) == format.instr_bytes(
            InstrV {
                args: instr.args.push(InstrArgV::Raw(RawArg { bits: 0, is_var: false })),
                ..instr
            },
        ),
{
    let zero = InstrArgV::Raw(RawArg { bits: 0, is_var: false });
    let more = InstrV { args: instr.args.push(zero), ..instr };
    lemma_args_bytes_push(instr.args, zero);
    reveal_with_fuel(zero_dwords, 4);
    assert(format.instr_bytes(instr) =~= format.instr_bytes(more));
}

/// A later instruction that is read is at the start of the data, or there is the marker.
pub proof fn law_instr_layout_10(format: InstrFormat10, s: Seq<u8>)
    ensures
        match format.take_instr(s) {
            Ok((Some(instr), rest)) => {
                let len = 8 + 4 * instr.args.len();
                instr_is_at(s, 0, instr, len) && len <= s.len() && rest == s.skip(len as int)
            },
            Ok((None, _)) => s.len() >= 8 && u16_at(s, 4) == 0xffff,
            Err(_) => true,
        },
{
    lemma_header_layout(s);
    if let Ok((Some(instr), rest)) = format.take_instr(s) {
        let size = take_header(s)->Ok_0.0.2;
        let n = (((size - 8) as usize) / 4) as nat;
        lemma_args_layout(s.skip(8), n);
        lemma_skip(s, 8);
        assert(s.skip(8).skip(4 * n as int) == s.skip(8 + 4 * n as int));
        lemma_instr_parts(s, instr, 8 + 4 * n);
    }
}

proof fn lemma_instr_skip(s: Seq<u8>, n: int, i: int, instr: InstrV, size: nat)
    requires
        0 <= n <= s.len(),
        0 <= i,
        instr_is_at(s.skip(n), i, instr, size),
    ensures
        instr_is_at(s, n + i, instr, size),
{
    reveal(instr_is_at);
    lemma_skip(s, n);
    let r = s.skip(n);
    assert(u32_at(r, i) == u32_at(s, n + i));
    assert(u16_at(r, i + 4) == u16_at(s, n + (i + 4)));
    assert(u16_at(r, i + 6) == u16_at(s, n + (i + 6)));
    assert forall|k: int| 0 <= k < instr.args.len() implies {
        &&& (#[trigger] instr.args[k]) is Raw
        &&& instr.args[k]->Raw_0.bits == u32_at(s, n + i + 8 + 4 * k)
        &&& !instr.args[k]->Raw_0.is_var
    } by {
        assert(u32_at(r, i + 8 + 4 * k) == u32_at(s, n + (i + 8 + 4 * k)));
    }
}

proof fn lemma_script_06(format: InstrFormat06, s: Seq<u8>, done: Seq<InstrV>, offset: nat)
    ensures
        take_instrs(format, s, done, offset, None) matches Ok(script) ==> {
            let end = 20 * (script.len() - done.len());
            &&& done.len() <= script.len()
            &&& script.take(done.len() as int) == done
            &&& forall|k: int|
                done.len() <= k < script.len() ==> (#[trigger] script[k]).args.len() == 3
                    && instr_is_at(s, 20 * (k - done.len()), script[k], 12)
            &&& end + 8 <= s.len()
            &&& u16_at(s, end + 4) == 0xffff
        },
    decreases s.len(),
{
    format.lemma_take_size(s);
    law_instr_layout_06(format, s);
    match format.take_instr(s) {
        Err(_) => {},
        Ok((None, _)) => {
            assert(done.take(done.len() as int) =~= done);
        },
        Ok((Some(x), rest)) => {
            lemma_skip(s, 20);
            lemma_script_06(format, rest, done.push(x), offset + 20);
            if let Ok(xs) = take_instrs(format, rest, done.push(x), offset + 20, None) {
                let d = done.len() as int;
                assert(xs.take(d + 1)[d] == x);
                assert(xs.take(d) =~= xs.take(d + 1).take(d));
                assert(done.push(x).take(d) =~= done);
                let end = 20 * (xs.len() - d);
                assert(u16_at(rest, end - 20 + 4) == u16_at(s, 20 + (end - 20 + 4)));
                assert forall|k: int| d <= k < xs.len() implies (#[trigger] xs[k]).args.len() == 3
                    && instr_is_at(s, 20 * (k - d), xs[k], 12) by {
                    if k > d {
                        lemma_instr_skip(s, 20, 20 * (k - d - 1), xs[k], 12);
                    }
                }
            }
        },
    }
}

/// Whether the instructions of a later script from the `d`-th on are at the start of the data, with
/// the end marker behind them.
#[verifier::opaque]
spec fn code_from(s: Seq<u8>, script: Seq<InstrV>, d: nat) -> bool {
    let skipped = code_len_10(script, d);
    let end = code_len_10(script, script.len()) - skipped;
    &&& d <= script.len()
    &&& end >= 0
    &&& forall|k: int|
        d <= k < script.len() ==> skipped <= code_len_10(script, k as nat) && instr_is_at(
            s,
            code_len_10(script, k as nat) - skipped,
            #[trigger] script[k],
            8 + 4 * script[k].args.len(),
        )
    &&& end + 8 <= s.len()
    &&& u16_at(s, end + 4) == 0xffff
}

proof fn lemma_code_from(s: Seq<u8>, script: Seq<InstrV>, d: nat)
    requires
        d < script.len(),
        8 + 4 * script[d as int].args.len() <= s.len(),
        instr_is_at(s, 0, script[d as int], 8 + 4 * script[d as int].args.len()),
        code_from(s.skip(8int + 4 * script[d as int].args.len()), script, d + 1),
    ensures
        code_from(s, script, d),
{
    reveal(code_from);
    let len = 8int + 4 * script[d as int].args.len();
    let rest = s.skip(len);
    lemma_skip(s, len);
    assert(code_len_10(script, d + 1) == code_len_10(script, d) + len);
    let skipped = code_len_10(script, d);
    let end = code_len_10(script, script.len()) - skipped;
    assert(u16_at(rest, end - len + 4) == u16_at(s, len + (end - len + 4)));
    assert forall|k: int| d <= k < script.len() implies skipped <= code_len_10(script, k as nat)
        && instr_is_at(
        s,
        code_len_10(script, k as nat) - skipped,
        #[trigger] script[k],
        8 + 4 * script[k].args.len(),
    ) by {
        if k > d {
            lemma_instr_skip(
                s,
                len,
                code_len_10(script, k as nat) - skipped - len,
                script[k],
                8 + 4 * script[k].args.len(),
            );
        }
    }
}

proof fn lemma_code_is_at(b: Seq<u8>, at: int, script: Seq<InstrV>)
    requires
        0 <= at <= b.len(),
        code_from(b.skip(at), script, 0),
    ensures
        script_is_at_10(b, at, script),
{
    reveal(code_from);
    let code = b.skip(at);
    lemma_skip(b, at);
    let end = code_len_10(script, script.len()) as int;
    assert(u16_at(code, end + 4) == u16_at(b, at + (end + 4)));
    assert forall|k: int| 0 <= k < script.len() implies instr_is_at(
        b,
        at + code_len_10(script, k as nat),
        #[trigger] script[k],
        8 + 4 * script[k].args.len(),
    ) by {
        lemma_instr_skip(
            b,
            at,
            code_len_10(script, k as nat) as int,
            script[k],
            8 + 4 * script[k].args.len(),
        );
    }
}

proof fn lemma_script_10(format: InstrFormat10, s: Seq<u8>, done: Seq<InstrV>, offset: nat)
    ensures
        take_instrs(format, s, done, offset, None) matches Ok(script) ==> {
            &&& done.len() <= script.len()
            &&& script.take(done.len() as int) == done
            &&& code_from(s, script, done.len())
        },
    decreases s.len(),
{
    format.lemma_take_size(s);
    law_instr_layout_10(format, s);
    match format.take_instr(s) {
        Err(_) => {},
        Ok((None, _)) => {
            reveal(code_from);
            assert(done.take(done.len() as int) =~= done);
        },
        Ok((Some(x), rest)) => {
            let len = 8 + 4 * x.args.len();
            lemma_script_10(format, rest, done.push(x), offset + len);
            if let Ok(xs) = take_instrs(format, rest, done.push(x), offset + len, None) {
                let d = done.len();
                assert(xs.take(d as int + 1)[d as int] == x);
                assert(xs.take(d as int) =~= xs.take(d as int + 1).take(d as int));
                assert(done.push(x).take(d as int) =~= done);
                assert(xs[d as int] == x);
                lemma_code_from(s, xs, d);
            }
        },
    }
}

// -----------------------------------------------------------------------------
// Whole files

proof fn lemma_strip_zeros(s: Seq<u8>)
    ensures
        ({
            let t = strip_zeros(s);
            &&& t.len() <= s.len()
            &&& forall|k: int| 0 <= k < t.len() ==> #[trigger] t[k] == s[k]
            &&& forall|k: int| t.len() <= k < s.len() ==> #[trigger] s[k] == 0
            &&& t.len() > 0 ==> t[t.len() - 1] != 0
        }),
    decreases s.len(),
{
    if s.len() > 0 && s.last() == 0 {
        let before = s.drop_last();
        lemma_strip_zeros(before);
        let t = strip_zeros(s);
        assert forall|k: int| t.len() <= k < s.len() implies #[trigger] s[k] == 0 by {
            if k < s.len() - 1 {
                assert(before[k] == s[k]);
            }
        }
        assert forall|k: int| 0 <= k < t.len() implies #[trigger] t[k] == s[k] by {
            assert(before[k] == s[k]);
        }
    }
}

proof fn lemma_string(s: Seq<u8>)
    ensures
        take_string_128(s) matches Ok((x, rest)) ==> string_at(s, 0, x) && rest == s.skip(128)
            && 128 <= s.len(),
{
    if let Ok((x, _)) = take_string_128(s) {
        let field = s.take(128);
        lemma_strip_zeros(field);
        assert forall|k: int| 0 <= k < x.len() implies #[trigger] x[k] == s[0 + k] by {
            assert(x[k] == field[k]);
        }
        assert forall|k: int| x.len() <= k < 128 implies #[trigger] s[k] == 0 by {
            assert(field[k] == 0);
        }
    }
}

proof fn lemma_string_skip(s: Seq<u8>, n: int, i: int, x: Seq<u8>)
    requires
        0 <= n <= s.len(),
        0 <= i,
        string_at(s.skip(n), i, x),
    ensures
        string_at(s, n + i, x),
{
    let r = s.skip(n);
    assert forall|k: int| 0 <= k < x.len() implies #[trigger] x[k] == s[n + i + k] by {
        assert(x[k] == r[i + k]);
    }
    assert forall|k: int| n + i + x.len() <= k < n + i + 128 implies #[trigger] s[k] == 0 by {
        assert(r[k - n] == 0);
    }
}

proof fn lemma_strings(s: Seq<u8>, n: nat)
    ensures
        take_strings(s, n) matches Ok((xs, rest)) ==> {
            &&& xs.len() == n
            &&& 128 * n <= s.len()
            &&& rest == s.skip(128 * n as int)
            &&& forall|k: int| 0 <= k < n ==> string_at(s, 128 * k, #[trigger] xs[k])
        },
    decreases n,
{
    if n == 0 {
        assert(s.skip(0) =~= s);
    } else {
        lemma_strings(s, (n - 1) as nat);
        if let Ok((xs, rest)) = take_strings(s, (n - 1) as nat) {
            lemma_skip(s, 128 * (n - 1));
            lemma_string(rest);
            if let Ok((x, _)) = take_string_128(rest) {
                lemma_string_skip(s, 128 * (n - 1), 0, x);
                assert(rest.skip(128) == s.skip(128 * (n - 1) + 128));
                let all = xs.push(x);
                assert forall|k: int| 0 <= k < n implies string_at(s, 128 * k, #[trigger] all[k]) by {
                    if k < n - 1 {
                        assert(all[k] == xs[k]);
                    }
                }
            }
        }
    }
}

proof fn lemma_u32s(s: Seq<u8>, n: nat)
    ensures
        take_u32s(s, n) matches Ok((xs, _)) ==> {
            &&& xs.len() == n
            &&& 4 * n <= s.len()
            &&& take_u32s(s, n)->Ok_0.1 == s.skip(4 * n as int)
            &&& forall|k: int| 0 <= k < n ==> #[trigger] xs[k] == u32_at(s, 4 * k)
        },
    decreases n,
{
    if n == 0 {
        assert(s.skip(0) =~= s);
    } else {
        lemma_u32s(s, (n - 1) as nat);
        if let Ok((xs, rest)) = take_u32s(s, (n - 1) as nat) {
            lemma_skip(s, 4 * (n - 1));
            lemma_u32(rest);
            if let Ok((x, _)) = take_u32(rest) {
                assert(u32_at(rest, 0) == u32_at(s, 4 * (n - 1) + 0));
                assert(rest.skip(4) == s.skip(4 * (n - 1) + 4));
                let all = xs.push(x);
                assert forall|k: int| 0 <= k < n implies #[trigger] all[k] == u32_at(s, 4 * k) by {
                    if k < n - 1 {
                        assert(all[k] == xs[k]);
                    }
                }
            }
        }
    }
}

proof fn lemma_objects(bytes: Seq<u8>, offsets: Seq<u32>, n: nat)
    requires
        n <= offsets.len(),
    ensures
        take_objects(bytes, offsets, n) matches Ok(objects) ==> objects.len() == n && forall|k: int|
            0 <= k < n ==> object_is_at(bytes, offsets[k] as int, (#[trigger] objects[k]).1),
    decreases n,
{
    if n > 0 {
        lemma_objects(bytes, offsets, (n - 1) as nat);
        if let Ok(objects) = take_objects(bytes, offsets, n) {
            let s = bytes.skip(offsets[n - 1] as int);
            law_object_layout(s);
            lemma_object_skip(bytes, offsets[n - 1] as int, objects[n - 1].1);
            let before = take_objects(bytes, offsets, (n - 1) as nat)->Ok_0;
            assert forall|k: int| 0 <= k < n implies object_is_at(
                bytes,
                offsets[k] as int,
                (#[trigger] objects[k]).1,
            ) by {
                if k < n - 1 {
                    assert(objects[k] == before[k]);
                }
            }
        }
    }
}

proof fn lemma_num_quads(objects: Seq<(Seq<char>, ObjectV)>, n: nat)
    ensures
        total_quads(objects, n) == num_quads(objects, n),
    decreases n,
{
    if n > 0 {
        lemma_num_quads(objects, (n - 1) as nat);
    }
}

/// The parts of a file that all games have, for a header of a size.
proof fn lemma_file<F: FileFormat>(format: F, b: Seq<u8>, header: int)
    requires
        0 <= header,
        forall|s: Seq<u8>|
            (#[trigger] format.take_extra(s)) matches Ok((_, rest)) ==> header <= s.len() && rest
                == s.skip(header),
    ensures
        parse_std(format, b) matches Ok(x) ==> {
            &&& file_is_at(b, header, x)
            &&& format.take_extra(b.skip(16)) matches Ok((extra, _)) && x.extra == extra
            &&& 0 <= u32_at(b, 8) <= b.len()
            &&& take_instrs(
                format.instr_format_spec(),
                b.skip(u32_at(b, 8)),
                seq![],
                0,
                None,
            ) matches Ok(script) && x.script == script
        },
{
    if let Ok(x) = parse_std(format, b) {
        reveal(take_start);
        lemma_u16(b);
        lemma_skip(b, 2);
        lemma_u16(b.skip(2));
        assert(u16_at(b.skip(2), 0) == u16_at(b, 2));
        assert(b.skip(2).skip(2) == b.skip(4));
        lemma_skip(b, 4);
        lemma_u32(b.skip(4));
        assert(u32_at(b.skip(4), 0) == u32_at(b, 4));
        assert(b.skip(4).skip(4) == b.skip(8));
        lemma_skip(b, 8);
        lemma_u32(b.skip(8));
        assert(u32_at(b.skip(8), 0) == u32_at(b, 8));
        assert(b.skip(8).skip(4) == b.skip(12));
        lemma_skip(b, 12);
        lemma_u32(b.skip(12));
        assert(u32_at(b.skip(12), 0) == u32_at(b, 12));
        assert(b.skip(12).skip(4) == b.skip(16));
        lemma_skip(b, 16);
        let start = take_start(b)->Ok_0.0;
        let n = start.num_objects as nat;
        assert(parse_std(format, b) == take_contents(format, b, start, b.skip(16)));
        let (extra, table) = format.take_extra(b.skip(16))->Ok_0;
        assert(table == b.skip(16 + header));
        lemma_skip(b, 16 + header);
        lemma_u32s(table, n);
        let offsets = take_u32s(table, n)->Ok_0.0;
        lemma_objects(b, offsets, n);
        lemma_num_quads(x.objects, n);
        assert forall|k: int| 0 <= k < n implies object_is_at(
            b,
            u32_at(b, 16 + header + 4 * k),
            (#[trigger] x.objects[k]).1,
        ) by {
            assert(offsets[k] == u32_at(table, 4 * k));
            assert(u32_at(table, 4 * k) == u32_at(b, 16 + header + 4 * k));
        }
        let at = start.instances_offset as int;
        let s = b.skip(at);
        lemma_skip(b, at);
        lemma_instances(s, x.objects, seq![]);
        let m = x.instances.len() as int;
        assert(u16_at(s, 16 * m) == u16_at(b, at + 16 * m));
        assert forall|k: int| 0 <= k < m implies instance_is_at(
            b,
            u32_at(b, 4) + 16 * k,
            #[trigger] x.instances[k],
            x.objects,
        ) by {
            lemma_instance_skip(b, at, 16 * k, x.instances[k], x.objects);
        }
    }
}

/// Whether the header of an early file is where it belongs.
spec fn header_06(b: Seq<u8>, extra: ExtraV) -> bool {
    &&& extra matches ExtraV::Th06 { stage_name, bgm }
    &&& bgm.len() == 4
    &&& string_at(b, 16, stage_name)
    &&& forall|k: int|
        0 <= k < 4 ==> string_at(b, 16 + 128 * (1 + k), (#[trigger] bgm[k]).name) && string_at(
            b,
            16 + 128 * (5 + k),
            bgm[k].path,
        )
}

proof fn lemma_header_06(format: FileFormat06, b: Seq<u8>)
    requires
        16 <= b.len(),
        format.take_extra(b.skip(16)) is Ok,
    ensures
        header_06(b, format.take_extra(b.skip(16))->Ok_0.0),
{
    let s = b.skip(16);
    lemma_strings(s, 9);
    let ss = take_strings(s, 9)->Ok_0.0;
    assert forall|k: int| 0 <= k < 9 implies string_at(b, 16 + 128 * k, #[trigger] ss[k]) by {
        lemma_string_skip(b, 16, 128 * k, ss[k]);
    }
    assert(string_at(b, 16int + 128 * 0, ss[0]));
    let bgm = format.take_extra(s)->Ok_0.0->bgm;
    assert forall|k: int| 0 <= k < 4 implies string_at(
        b,
        16 + 128 * (1 + k),
        (#[trigger] bgm[k]).name,
    ) && string_at(b, 16 + 128 * (5 + k), bgm[k].path) by {
        assert(bgm[k].name == ss[1 + k]);
        assert(bgm[k].path == ss[5 + k]);
    }
}

proof fn lemma_code_06(format: InstrFormat06, b: Seq<u8>, at: int, script: Seq<InstrV>)
    requires
        0 <= at <= b.len(),
        take_instrs(format, b.skip(at), seq![], 0, None) matches Ok(x) && x == script,
    ensures
        script_is_at_06(b, at, script),
{
    let code = b.skip(at);
    lemma_skip(b, at);
    lemma_script_06(format, code, seq![], 0);
    let end = 20 * script.len() as int;
    assert(u16_at(code, end + 4) == u16_at(b, at + (end + 4)));
    assert forall|k: int| 0 <= k < script.len() implies (#[trigger] script[k]).args.len() == 3
        && instr_is_at(b, at + 20 * k, script[k], 12) by {
        lemma_instr_skip(b, at, 20 * k, script[k], 12);
    }
}

/// Whatever is read as an early file is where it belongs in the bytes.
pub proof fn law_read_file_layout_06(format: FileFormat06, b: Seq<u8>)
    ensures
        parse_std(format, b) matches Ok(x) ==> is_file_06(b, x),
{
    assert forall|s: Seq<u8>| (#[trigger] format.take_extra(s)) matches Ok((_, rest)) implies 1152
        <= s.len() && format.take_extra(s)->Ok_0.1 == s.skip(1152) by {
        lemma_strings(s, 9);
    }
    lemma_file(format, b, 1152);
    if let Ok(x) = parse_std(format, b) {
        lemma_header_06(format, b);
        lemma_code_06(format.instr_format_spec(), b, u32_at(b, 8), x.script);
    }
}

/// Whatever is read as a later file is where it belongs in the bytes.
pub proof fn law_read_file_layout_10(format: FileFormat10, b: Seq<u8>)
    ensures
        parse_std(format, b) matches Ok(x) ==> is_file_10(b, x),
{
    assert forall|s: Seq<u8>| (#[trigger] format.take_extra(s)) matches Ok((_, rest)) implies 128
        <= s.len() && format.take_extra(s)->Ok_0.1 == s.skip(128) by {
        lemma_string(s);
    }
    lemma_file(format, b, 128);
    if let Ok(x) = parse_std(format, b) {
        lemma_string(b.skip(16));
        lemma_string_skip(b, 16, 0, x.extra->anm_path);
        let at = u32_at(b, 8);
        lemma_script_10(format.instr_format_spec(), b.skip(at), seq![], 0);
        lemma_code_is_at(b, at, x.script);
    }
}

/// Whether each of `n` objects of a file starts with its own number.
pub open spec fn objects_tell_their_numbers(b: Seq<u8>, header: int, n: nat) -> bool {
    forall|k: int| 0 <= k < n ==> u16_at(b, #[trigger] u32_at(b, 16 + header + 4 * k)) == k
}

proof fn lemma_numbers(bytes: Seq<u8>, offsets: Seq<u32>, n: nat)
    requires
        n <= offsets.len(),
        take_objects(bytes, offsets, n) is Ok,
        objects_warnings(bytes, offsets, n).len() == 0,
    ensures
        forall|k: int| 0 <= k < n ==> u16_at(bytes, #[trigger] offsets[k] as int) == k,
    decreases n,
{
    if n > 0 {
        lemma_numbers(bytes, offsets, (n - 1) as nat);
        let s = bytes.skip(offsets[n - 1] as int);
        lemma_skip(bytes, offsets[n - 1] as int);
        reveal(take_object);
        lemma_u16(s);
        assert(object_warnings((n - 1) as nat, s).len() == 0);
        assert(u16_at(s, 0) == u16_at(bytes, offsets[n - 1] + 0));
    }
}

proof fn lemma_file_numbers<F: FileFormat>(format: F, b: Seq<u8>, header: int)
    requires
        0 <= header,
        forall|s: Seq<u8>|
            (#[trigger] format.take_extra(s)) matches Ok((_, rest)) ==> header <= s.len() && rest
                == s.skip(header),
        parse_std(format, b) is Ok,
        read_warnings(format, b).len() == 0,
    ensures
        objects_tell_their_numbers(b, header, u16_at(b, 0) as nat),
{
    reveal(take_start);
    lemma_u16(b);
    lemma_skip(b, 2);
    lemma_skip(b, 4);
    lemma_skip(b, 8);
    lemma_skip(b, 12);
    assert(b.skip(2).skip(2) == b.skip(4));
    assert(b.skip(4).skip(4) == b.skip(8));
    assert(b.skip(8).skip(4) == b.skip(12));
    assert(b.skip(12).skip(4) == b.skip(16));
    lemma_skip(b, 16);
    let start = take_start(b)->Ok_0.0;
    let n = start.num_objects as nat;
    assert(parse_std(format, b) == take_contents(format, b, start, b.skip(16)));
    let table = format.take_extra(b.skip(16))->Ok_0.1;
    assert(table == b.skip(16 + header));
    lemma_skip(b, 16 + header);
    lemma_u32s(table, n);
    let offsets = take_u32s(table, n)->Ok_0.0;
    lemma_numbers(b, offsets, n);
    assert forall|k: int| 0 <= k < n implies u16_at(
        b,
        #[trigger] u32_at(b, 16 + header + 4 * k),
    ) == k by {
        assert(offsets[k] == u32_at(table, 4 * k));
        assert(u32_at(table, 4 * k) == u32_at(b, 16 + header + 4 * k));
    }
}

/// An early file that fits the format is where it belongs in the bytes that are written of it, with
/// its objects named by their numbers.
pub proof fn law_written_file_layout_06(format: FileFormat06, x: StdFileV)
    requires
        std_valid(format, x),
    ensures
        std_bytes(format, x) matches Ok(b) && is_file_06(b, numbered(x))
            && objects_tell_their_numbers(b, 1152, x.objects.len()),
{
    law_std_round_trip(format, x);
    assert forall|s: Seq<u8>| (#[trigger] format.take_extra(s)) matches Ok((_, rest)) implies 1152
        <= s.len() && format.take_extra(s)->Ok_0.1 == s.skip(1152) by {
        lemma_strings(s, 9);
    }
    lemma_file_numbers(format, std_bytes(format, x)->Ok_0, 1152);
    law_read_file_layout_06(format, std_bytes(format, x)->Ok_0);
}

/// A later file that fits the format is where it belongs in the bytes that are written of it, with
/// its objects named by their numbers.
pub proof fn law_written_file_layout_10(format: FileFormat10, x: StdFileV)
    requires
        std_valid(format, x),
    ensures
        std_bytes(format, x) matches Ok(b) && is_file_10(b, numbered(x))
            && objects_tell_their_numbers(b, 128, x.objects.len()),
{
    law_std_round_trip(format, x);
    assert forall|s: Seq<u8>| (#[trigger] format.take_extra(s)) matches Ok((_, rest)) implies 128
        <= s.len() && format.take_extra(s)->Ok_0.1 == s.skip(128) by {
        lemma_string(s);
    }
    lemma_file_numbers(format, std_bytes(format, x)->Ok_0, 128);
    law_read_file_layout_10(format, std_bytes(format, x)->Ok_0);
}

} // verus!
