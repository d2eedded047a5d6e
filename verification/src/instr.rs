//! Instructions: their lowering from statements, and their raising back.

pub mod format;
pub mod labels;
pub mod laws;
pub mod lower;
pub mod meaning;
pub mod raise;
pub mod registers;
pub mod round_trip;
pub mod shape;
pub mod statements;
pub mod temporaries;

use crate::error::{Diagnostic, Error, ErrorV};
use crate::float32::F32;
use crate::ident::Ident;
use crate::pos::{Sp, Span};
use crate::scope::VarId;
use crate::script::{ident_view, AssignOpKind, BinopKind};
use crate::type_system::{result_view, ScalarType};
use vstd::prelude::*;

verus! {

#[derive(Debug, Clone, PartialEq)]
pub enum LowLevelStmt {
    /// Represents a single instruction in the compiled file.
    Instr(Instr),
    /// An intrinsic that represents a label that can be jumped to.
    Label(Sp<Ident>),
    /// An intrinsic that begins the scope of a register-allocated local.
    RegAlloc { var: VarId, cause: Span },
    /// An intrinsic that ends the scope of a register-allocated local.
    RegFree { var: VarId },
}

#[derive(Debug, Clone, PartialEq)]
pub struct Instr {
    pub time: i32,
    pub opcode: u16,
    pub args: Vec<InstrArg>,
}

#[derive(Debug, PartialEq)]
pub enum InstrArg {
    /// A fully encoded argument (an immediate or a register).
    Raw(RawArg),
    /// A register-allocated local.
    Local(VarId),
    /// A label that has not yet been converted to an integer argument.
    ///
    /// This may be present in the input to [`InstrFormat::instr_size`], but will be replaced with
    /// a dword before [`InstrFormat::write_instr`] is called.
    Label(Sp<Ident>),
    /// A `timeof(label)` that has not yet been converted to an integer argument.
    ///
    /// This may be present in the input to [`InstrFormat::instr_size`], but will be replaced with
    /// a dword before [`InstrFormat::write_instr`] is called.
    TimeOf(Sp<Ident>),
}

#[derive(Debug, Copy, Clone, PartialEq, Eq, Hash, Structural)]
pub struct RawArg {
    pub bits: u32,
    pub is_var: bool,
}

/// The view of a [`LowLevelStmt`].
pub ghost enum LowV {
    Instr(InstrV),
    Label(Sp<Seq<char>>),
    RegAlloc { var: VarId, cause: Span },
    RegFree { var: VarId },
}

/// The view of an [`Instr`].
#[verifier::ext_equal]
pub ghost struct InstrV {
    pub time: i32,
    pub opcode: u16,
    pub args: Seq<InstrArgV>,
}

/// The view of an [`InstrArg`].
pub ghost enum InstrArgV {
    Raw(RawArg),
    Local(VarId),
    Label(Sp<Seq<char>>),
    TimeOf(Sp<Seq<char>>),
}

impl View for InstrArg {
    type V = InstrArgV;

    open spec fn view(&self) -> InstrArgV {
        match *self {
            InstrArg::Raw(raw) => InstrArgV::Raw(raw),
            InstrArg::Local(var) => InstrArgV::Local(var),
            InstrArg::Label(label) => InstrArgV::Label(ident_view(label)),
            InstrArg::TimeOf(label) => InstrArgV::TimeOf(ident_view(label)),
        }
    }
}

/// The views of a list of arguments.
pub open spec fn args_view(args: Seq<InstrArg>) -> Seq<InstrArgV> {
    args.map_values(|a: InstrArg| a@)
}

impl View for Instr {
    type V = InstrV;

    open spec fn view(&self) -> InstrV {
        InstrV { time: self.time, opcode: self.opcode, args: args_view(self.args@) }
    }
}

/// The views of a list of instructions.
pub open spec fn instrs_view(instrs: Seq<Instr>) -> Seq<InstrV> {
    instrs.map_values(|i: Instr| i@)
}

impl View for LowLevelStmt {
    type V = LowV;

    open spec fn view(&self) -> LowV {
        match *self {
            LowLevelStmt::Instr(instr) => LowV::Instr(instr@),
            LowLevelStmt::Label(label) => LowV::Label(ident_view(label)),
            LowLevelStmt::RegAlloc { var, cause } => LowV::RegAlloc { var, cause },
            LowLevelStmt::RegFree { var } => LowV::RegFree { var },
        }
    }
}

/// The views of a list of low-level statements.
pub open spec fn low_view(code: Seq<LowLevelStmt>) -> Seq<LowV> {
    code.map_values(|s: LowLevelStmt| s@)
}

impl Clone for InstrArg {
    fn clone(&self) -> (r: Self)
        ensures
            r == *self,
    {
        match self {
            InstrArg::Raw(raw) => InstrArg::Raw(*raw),
            InstrArg::Local(var) => InstrArg::Local(*var),
            InstrArg::Label(label) => InstrArg::Label(label.clone()),
            InstrArg::TimeOf(label) => InstrArg::TimeOf(label.clone()),
        }
    }
}

impl InstrArg {
    /// Call this at a time when the arg is known to have a fully resolved value.
    ///
    /// Such times are:
    /// * During decompilation.
    /// * Within [`InstrFormat::write_instr`].
    pub fn expect_raw(&self) -> (r: RawArg)
        requires
            self is Raw,
        ensures
            self@ == InstrArgV::Raw(r),
    {
        match self {
            InstrArg::Raw(x) => *x,
            _ => RawArg { bits: 0, is_var: false },
        }
    }

    /// The integer that the arg holds, where it is known to be an immediate.
    pub fn expect_immediate_int(&self) -> (r: i32)
        requires
            self is Raw,
            !self->Raw_0.is_var,
        ensures
            r == self->Raw_0.bits as i32,
    {
        self.expect_raw().bits as i32
    }

    /// The number that the arg holds, where it is known to be an immediate.
    pub fn expect_immediate_float(&self) -> (r: F32)
        requires
            self is Raw,
            !self->Raw_0.is_var,
        ensures
            r.bits == self->Raw_0.bits,
    {
        F32::from_bits(self.expect_raw().bits)
    }
}

impl RawArg {
    pub open spec fn from_reg_spec(number: i32, ty: ScalarType) -> RawArg {
        RawArg {
            bits: match ty {
                ScalarType::Int => number as u32,
                ScalarType::Float => F32::bits_of_int(number as int) as u32,
            },
            is_var: true,
        }
    }

    /// The encoding of a register: its number as an integer, or as the nearest float.
    pub fn from_reg(number: i32, ty: ScalarType) -> (r: RawArg)
        ensures
            r == RawArg::from_reg_spec(number, ty),
    {
        let bits: u32 = match ty {
            ScalarType::Int => number as u32,
            ScalarType::Float => F32::from_i32(number).to_bits(),
        };
        RawArg { bits, is_var: true }
    }
}

impl From<u32> for RawArg {
    fn from(x: u32) -> (r: RawArg) {
        RawArg { bits: x, is_var: false }
    }
}

impl vstd::std_specs::convert::FromSpecImpl<u32> for RawArg {
    open spec fn obeys_from_spec() -> bool {
        true
    }

    open spec fn from_spec(x: u32) -> RawArg {
        RawArg { bits: x, is_var: false }
    }
}

impl From<i32> for RawArg {
    fn from(x: i32) -> (r: RawArg) {
        RawArg { bits: x as u32, is_var: false }
    }
}

impl vstd::std_specs::convert::FromSpecImpl<i32> for RawArg {
    open spec fn obeys_from_spec() -> bool {
        true
    }

    open spec fn from_spec(x: i32) -> RawArg {
        RawArg { bits: x as u32, is_var: false }
    }
}

impl From<F32> for RawArg {
    fn from(x: F32) -> (r: RawArg) {
        RawArg { bits: x.to_bits(), is_var: false }
    }
}

impl vstd::std_specs::convert::FromSpecImpl<F32> for RawArg {
    open spec fn obeys_from_spec() -> bool {
        true
    }

    open spec fn from_spec(x: F32) -> RawArg {
        RawArg { bits: x.bits, is_var: false }
    }
}

// =============================================================================

/// An operation of the language that a format may have an instruction for.
#[derive(Debug, Copy, Clone, PartialEq, Eq, PartialOrd, Ord, Hash, Structural)]
pub enum IntrinsicInstrKind {
    /// Like `goto label @ t;` (and `goto label;`)
    ///
    /// Args: `label, t`.
    Jmp,
    /// Like `interrupt[n]:`
    ///
    /// Args: `n`.
    InterruptLabel,
    /// Like `a = b;` or `a += b;`
    ///
    /// Args: `a, b`.
    AssignOp(AssignOpKind, ScalarType),
    /// Like `a = b + c;`
    ///
    /// Args: `a, b, c`.
    Binop(BinopKind, ScalarType),
    /// Like `a = sin(b);`
    ///
    /// Args: `a, b`.
    TransOp(TransOpKind),
    /// Like `if (x--) goto label @ t`.
    ///
    /// Args: `x, label, t`.
    CountJmp,
    /// Like `if (a == c) goto label @ t;`
    ///
    /// Args: `a, b, label, t`
    CondJmp(BinopKind, ScalarType),
}

/// Transcendental functions available in at least one game.
#[derive(Debug, Copy, Clone, PartialEq, Eq, PartialOrd, Ord, Hash, Structural)]
pub enum TransOpKind {
    Sin,
    Cos,
    Tan,
    Acos,
    Atan,
}

/// Which instruction stands for which operation.
#[derive(Debug)]
pub struct IntrinsicInstrs {
    pairs: Vec<(IntrinsicInstrKind, u16)>,
}

/// The pairs that no later pair of the same kind replaces.
pub open spec fn effective_pairs(pairs: Seq<(IntrinsicInstrKind, u16)>) -> Seq<
    (IntrinsicInstrKind, u16),
>
    decreases pairs.len(),
{
    if pairs.len() == 0 {
        seq![]
    } else {
        without_kind(effective_pairs(pairs.drop_last()), pairs.last().0).push(pairs.last())
    }
}

/// The pairs of all kinds but one.
pub open spec fn without_kind(
    pairs: Seq<(IntrinsicInstrKind, u16)>,
    kind: IntrinsicInstrKind,
) -> Seq<(IntrinsicInstrKind, u16)> {
    pairs.filter(|p: (IntrinsicInstrKind, u16)| p.0 != kind)
}

/// The opcode that the last pair of a kind gives it.
pub open spec fn opcode_of(
    pairs: Seq<(IntrinsicInstrKind, u16)>,
    kind: IntrinsicInstrKind,
) -> Option<u16>
    decreases pairs.len(),
{
    if pairs.len() == 0 {
        None
    } else if pairs.last().0 == kind {
        Some(pairs.last().1)
    } else {
        opcode_of(pairs.drop_last(), kind)
    }
}

/// The kind that the last pair with an opcode gives it.
pub open spec fn intrinsic_of(
    pairs: Seq<(IntrinsicInstrKind, u16)>,
    opcode: u16,
) -> Option<IntrinsicInstrKind>
    decreases pairs.len(),
{
    if pairs.len() == 0 {
        None
    } else if pairs.last().1 == opcode {
        Some(pairs.last().0)
    } else {
        intrinsic_of(pairs.drop_last(), opcode)
    }
}

impl View for IntrinsicInstrs {
    type V = Seq<(IntrinsicInstrKind, u16)>;

    closed spec fn view(&self) -> Seq<(IntrinsicInstrKind, u16)> {
        self.pairs@
    }
}

/// The opcode of an operation, or an error about the place that needs it.
pub open spec fn get_opcode_spec(
    pairs: Seq<(IntrinsicInstrKind, u16)>,
    kind: IntrinsicInstrKind,
    span: Span,
) -> Result<u16, ErrorV> {
    match opcode_of(pairs, kind) {
        Some(opcode) => Ok(opcode),
        None => Err(Diagnostic::IntrinsicUnsupported { kind, span }),
    }
}

impl IntrinsicInstrs {
    /// Make the table from pairs.  Of several pairs for one operation the last one counts.
    pub fn from_pairs(pairs: Vec<(IntrinsicInstrKind, u16)>) -> (r: Self)
        ensures
            r@ == effective_pairs(pairs@),
    {
        let mut out: Vec<(IntrinsicInstrKind, u16)> = Vec::new();
        let mut i: usize = 0;
        while i < pairs.len()
            invariant
                i <= pairs@.len(),
                out@ == effective_pairs(pairs@.take(i as int)),
            decreases pairs@.len() - i,
        {
            let (kind, opcode) = pairs[i];
            let mut kept: Vec<(IntrinsicInstrKind, u16)> = Vec::new();
            let mut j: usize = 0;
            while j < out.len()
                invariant
                    j <= out@.len(),
                    kept@ == without_kind(out@.take(j as int), kind),
                decreases out@.len() - j,
            {
                proof {
                    reveal(Seq::filter);
                    assert(out@.take(j + 1).drop_last() =~= out@.take(j as int));
                }
                if out[j].0 != kind {
                    kept.push(out[j]);
                }
                j = j + 1;
            }
            assert(out@.take(j as int) =~= out@);
            kept.push((kind, opcode));
            out = kept;
            assert(pairs@.take(i + 1).drop_last() =~= pairs@.take(i as int));
            i = i + 1;
        }
        assert(pairs@.take(i as int) =~= pairs@);
        IntrinsicInstrs { pairs: out }
    }

    /// The opcode of an operation.
    ///
    /// A game that has none is an error about the place that needs the operation.
    pub fn get_opcode(&self, intrinsic: IntrinsicInstrKind, span: Span) -> (r: Result<u16, Error>)
        ensures
            result_view(r) == get_opcode_spec(self@, intrinsic, span),
    {
        let mut n: usize = self.pairs.len();
        assert(self@.take(n as int) =~= self@);
        while n > 0
            invariant
                n <= self.pairs@.len(),
                self@ == self.pairs@,
                opcode_of(self@, intrinsic) == opcode_of(self@.take(n as int), intrinsic),
            decreases n,
        {
            assert(self@.take(n as int).drop_last() =~= self@.take(n - 1));
            if self.pairs[n - 1].0 == intrinsic {
                return Ok(self.pairs[n - 1].1);
            }
            n = n - 1;
        }
        Err(Diagnostic::IntrinsicUnsupported { kind: intrinsic, span })
    }

    /// The operation that an instruction stands for.
    pub fn get_intrinsic(&self, opcode: u16) -> (r: Option<IntrinsicInstrKind>)
        ensures
            r == intrinsic_of(self@, opcode),
    {
        let mut n: usize = self.pairs.len();
        assert(self@.take(n as int) =~= self@);
        while n > 0
            invariant
                n <= self.pairs@.len(),
                self@ == self.pairs@,
                intrinsic_of(self@, opcode) == intrinsic_of(self@.take(n as int), opcode),
            decreases n,
        {
            assert(self@.take(n as int).drop_last() =~= self@.take(n - 1));
            if self.pairs[n - 1].1 == opcode {
                return Some(self.pairs[n - 1].0);
            }
            n = n - 1;
        }
        None
    }
}

/// Integer and float versions of an operator take turns.
pub open spec fn typed_version(i: int) -> ScalarType {
    if i % 2 == 0 {
        ScalarType::Int
    } else {
        ScalarType::Float
    }
}

/// The operators of binary_ops in their canonical order.
pub open spec fn binary_ops() -> Seq<BinopKind> {
    seq![BinopKind::Add, BinopKind::Sub, BinopKind::Mul, BinopKind::Div, BinopKind::Rem]
}

/// Add intrinsic pairs for binary operations in `a = b op c` form in their canonical order,
/// which is `+, -, *, /, %`, with each operator having an int version and a float version.
pub fn register_binary_ops(pairs: &mut Vec<(IntrinsicInstrKind, u16)>, start: u16)
    requires
        start + 10 <= u16::MAX,
    ensures
        final(pairs)@ == old(pairs)@ + Seq::new(
            10,
            |i: int|
                (
                    IntrinsicInstrKind::Binop(binary_ops()[i / 2], typed_version(i)),
                    (start + i) as u16,
                ),
        ),
{
    let ops: [BinopKind; 5] = [BinopKind::Add, BinopKind::Sub, BinopKind::Mul, BinopKind::Div, BinopKind::Rem];
    let ghost added = Seq::new(
        10,
        |i: int|
            (
                IntrinsicInstrKind::Binop(binary_ops()[i / 2], typed_version(i)),
                (start + i) as u16,
            ),
    );
    let mut k: usize = 0;
    assert(pairs@ =~= old(pairs)@ + added.take(0));
    while k < 5
        invariant
            k <= 5,
            start + 10 <= u16::MAX,
            ops@ == binary_ops(),
            added == Seq::new(
                10,
                |i: int|
                    (
                        IntrinsicInstrKind::Binop(binary_ops()[i / 2], typed_version(i)),
                        (start + i) as u16,
                    ),
            ),
            pairs@ == old(pairs)@ + added.take(2 * k),
        decreases 5 - k,
    {
        let opcode: u16 = start + 2 * (k as u16);
        pairs.push((IntrinsicInstrKind::Binop(ops[k], ScalarType::Int), opcode));
        pairs.push((IntrinsicInstrKind::Binop(ops[k], ScalarType::Float), opcode + 1));
        assert((2 * k) / 2 == k && (2 * k + 1) / 2 == k);
        k = k + 1;
        assert(pairs@ =~= old(pairs)@ + added.take(2 * k));
    }
    assert(added.take(10) =~= added);
}

/// The operators of assign_ops in their canonical order.
pub open spec fn assign_ops() -> Seq<AssignOpKind> {
    seq![AssignOpKind::Assign, AssignOpKind::Add, AssignOpKind::Sub, AssignOpKind::Mul, AssignOpKind::Div, AssignOpKind::Rem]
}

/// Add intrinsic pairs for assign ops in their cannonical order: `=, +=, -=, *=, /=, %=`,
/// with each operator having an int version and a float version.
pub fn register_assign_ops(pairs: &mut Vec<(IntrinsicInstrKind, u16)>, start: u16)
    requires
        start + 12 <= u16::MAX,
    ensures
        final(pairs)@ == old(pairs)@ + Seq::new(
            12,
            |i: int|
                (
                    IntrinsicInstrKind::AssignOp(assign_ops()[i / 2], typed_version(i)),
                    (start + i) as u16,
                ),
        ),
{
    let ops: [AssignOpKind; 6] = [AssignOpKind::Assign, AssignOpKind::Add, AssignOpKind::Sub, AssignOpKind::Mul, AssignOpKind::Div, AssignOpKind::Rem];
    let ghost added = Seq::new(
        12,
        |i: int|
            (
                IntrinsicInstrKind::AssignOp(assign_ops()[i / 2], typed_version(i)),
                (start + i) as u16,
            ),
    );
    let mut k: usize = 0;
    assert(pairs@ =~= old(pairs)@ + added.take(0));
    while k < 6
        invariant
            k <= 6,
            start + 12 <= u16::MAX,
            ops@ == assign_ops(),
            added == Seq::new(
                12,
                |i: int|
                    (
                        IntrinsicInstrKind::AssignOp(assign_ops()[i / 2], typed_version(i)),
                        (start + i) as u16,
                    ),
            ),
            pairs@ == old(pairs)@ + added.take(2 * k),
        decreases 6 - k,
    {
        let opcode: u16 = start + 2 * (k as u16);
        pairs.push((IntrinsicInstrKind::AssignOp(ops[k], ScalarType::Int), opcode));
        pairs.push((IntrinsicInstrKind::AssignOp(ops[k], ScalarType::Float), opcode + 1));
        assert((2 * k) / 2 == k && (2 * k + 1) / 2 == k);
        k = k + 1;
        assert(pairs@ =~= old(pairs)@ + added.take(2 * k));
    }
    assert(added.take(12) =~= added);
}

/// The operators of cond_jumps in their canonical order.
pub open spec fn cond_jumps() -> Seq<BinopKind> {
    seq![BinopKind::Eq, BinopKind::Ne, BinopKind::Lt, BinopKind::Le, BinopKind::Gt, BinopKind::Ge]
}

/// Add intrinsic pairs for conditional jumps in their cannonical order: `==, !=, <, <=, >, >=`,
/// with each operator having an int version and a float version.
pub fn register_cond_jumps(pairs: &mut Vec<(IntrinsicInstrKind, u16)>, start: u16)
    requires
        start + 12 <= u16::MAX,
    ensures
        final(pairs)@ == old(pairs)@ + Seq::new(
            12,
            |i: int|
                (
                    IntrinsicInstrKind::CondJmp(cond_jumps()[i / 2], typed_version(i)),
                    (start + i) as u16,
                ),
        ),
{
    let ops: [BinopKind; 6] = [BinopKind::Eq, BinopKind::Ne, BinopKind::Lt, BinopKind::Le, BinopKind::Gt, BinopKind::Ge];
    let ghost added = Seq::new(
        12,
        |i: int|
            (
                IntrinsicInstrKind::CondJmp(cond_jumps()[i / 2], typed_version(i)),
                (start + i) as u16,
            ),
    );
    let mut k: usize = 0;
    assert(pairs@ =~= old(pairs)@ + added.take(0));
    while k < 6
        invariant
            k <= 6,
            start + 12 <= u16::MAX,
            ops@ == cond_jumps(),
            added == Seq::new(
                12,
                |i: int|
                    (
                        IntrinsicInstrKind::CondJmp(cond_jumps()[i / 2], typed_version(i)),
                        (start + i) as u16,
                    ),
            ),
            pairs@ == old(pairs)@ + added.take(2 * k),
        decreases 6 - k,
    {
        let opcode: u16 = start + 2 * (k as u16);
        pairs.push((IntrinsicInstrKind::CondJmp(ops[k], ScalarType::Int), opcode));
        pairs.push((IntrinsicInstrKind::CondJmp(ops[k], ScalarType::Float), opcode + 1));
        assert((2 * k) / 2 == k && (2 * k + 1) / 2 == k);
        k = k + 1;
        assert(pairs@ =~= old(pairs)@ + added.take(2 * k));
    }
    assert(added.take(12) =~= added);
}

/// The table keeps of each operation what the last pair says of it.
pub proof fn law_table_keeps_last_opcode(
    pairs: Seq<(IntrinsicInstrKind, u16)>,
    kind: IntrinsicInstrKind,
)
    ensures
        opcode_of(effective_pairs(pairs), kind) == opcode_of(pairs, kind),
    decreases pairs.len(),
{
    if pairs.len() > 0 {
        let before = effective_pairs(pairs.drop_last());
        let last = pairs.last();
        law_table_keeps_last_opcode(pairs.drop_last(), kind);
        let kept = without_kind(before, last.0);
        assert(effective_pairs(pairs).drop_last() =~= kept);
        if last.0 != kind {
            lemma_opcode_without_kind(before, last.0, kind);
        }
    }
}

proof fn lemma_opcode_without_kind(
    pairs: Seq<(IntrinsicInstrKind, u16)>,
    gone: IntrinsicInstrKind,
    kind: IntrinsicInstrKind,
)
    requires
        kind != gone,
    ensures
        opcode_of(without_kind(pairs, gone), kind) == opcode_of(pairs, kind),
    decreases pairs.len(),
{
    reveal(Seq::filter);
    if pairs.len() > 0 {
        lemma_opcode_without_kind(pairs.drop_last(), gone, kind);
        let kept = without_kind(pairs.drop_last(), gone);
        if pairs.last().0 != gone {
            assert(without_kind(pairs, gone) =~= kept.push(pairs.last()));
            assert(kept.push(pairs.last()).drop_last() =~= kept);
        } else {
            assert(without_kind(pairs, gone) =~= kept);
        }
    }
}

/// Whether no operation occurs in two pairs.
pub open spec fn kinds_unique(pairs: Seq<(IntrinsicInstrKind, u16)>) -> bool {
    forall|i: int, j: int| 0 <= i < j < pairs.len() ==> pairs[i].0 != pairs[j].0
}

proof fn lemma_without_kind(pairs: Seq<(IntrinsicInstrKind, u16)>, gone: IntrinsicInstrKind)
    requires
        kinds_unique(pairs),
    ensures
        kinds_unique(without_kind(pairs, gone)),
        forall|i: int|
            0 <= i < without_kind(pairs, gone).len() ==> {
                let p = #[trigger] without_kind(pairs, gone)[i];
                p.0 != gone && pairs.contains(p)
            },
    decreases pairs.len(),
{
    reveal(Seq::filter);
    if pairs.len() > 0 {
        let before = pairs.drop_last();
        assert(kinds_unique(before));
        lemma_without_kind(before, gone);
        let kept = without_kind(before, gone);
        assert forall|p: (IntrinsicInstrKind, u16)| before.contains(p) implies pairs.contains(p)
            && p.0 != pairs.last().0 by {
            let k = choose|k: int| 0 <= k < before.len() && before[k] == p;
            assert(pairs[k] == p);
        }
        if pairs.last().0 != gone {
            assert(without_kind(pairs, gone) =~= kept.push(pairs.last()));
            assert(pairs[pairs.len() - 1] == pairs.last());
        } else {
            assert(without_kind(pairs, gone) =~= kept);
        }
    }
}

proof fn lemma_effective_unique(pairs: Seq<(IntrinsicInstrKind, u16)>)
    ensures
        kinds_unique(effective_pairs(pairs)),
    decreases pairs.len(),
{
    if pairs.len() > 0 {
        lemma_effective_unique(pairs.drop_last());
        lemma_without_kind(effective_pairs(pairs.drop_last()), pairs.last().0);
    }
}

proof fn lemma_opcode_of_unique(pairs: Seq<(IntrinsicInstrKind, u16)>, opcode: u16)
    requires
        kinds_unique(pairs),
    ensures
        intrinsic_of(pairs, opcode) matches Some(kind) ==> opcode_of(pairs, kind) == Some(opcode)
            && exists|i: int| 0 <= i < pairs.len() && (#[trigger] pairs[i]).0 == kind,
    decreases pairs.len(),
{
    if pairs.len() > 0 {
        let before = pairs.drop_last();
        assert(kinds_unique(before));
        lemma_opcode_of_unique(before, opcode);
        if pairs.last().1 == opcode {
            assert(pairs[pairs.len() - 1].0 == pairs.last().0);
        } else if intrinsic_of(before, opcode) is Some {
            let kind = intrinsic_of(before, opcode)->0;
            let i = choose|i: int| 0 <= i < before.len() && (#[trigger] before[i]).0 == kind;
            assert(pairs[i].0 == kind);
        }
    }
}

/// The operation that an instruction is raised to is one that is lowered to the instruction.
pub proof fn law_table_is_consistent(pairs: Seq<(IntrinsicInstrKind, u16)>, opcode: u16)
    ensures
        intrinsic_of(effective_pairs(pairs), opcode) matches Some(kind) ==> opcode_of(
            effective_pairs(pairs),
            kind,
        ) == Some(opcode),
{
    lemma_effective_unique(pairs);
    lemma_opcode_of_unique(effective_pairs(pairs), opcode);
}

} // verus!
