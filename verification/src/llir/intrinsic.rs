//! Instructions that stand for operations of the language, and how their arguments are laid out.

use crate::ast::{AssignOpKind, BinOpKind, OpClass, UnOpKind};
use crate::llir::{AbiTable, ArgEncoding, InstrAbi};
use crate::pos::{sp, sp_null, Sp, Span};
use crate::text::{decimal_spec, push_decimal};
use crate::value::ScalarType;
use vstd::prelude::*;
use vstd::string::*;

verus! {

/// An operation that some games have an instruction for.
#[derive(Debug, Copy, Clone, PartialEq, Eq, PartialOrd, Ord, Hash, Structural)]
pub enum IntrinsicInstrKind {
    /// Like `goto label @ t;` (and `goto label;`)
    ///
    /// Args: `label, t`, in an order defined by the ABI.
    Jmp,
    /// Like `interrupt[n]:`
    ///
    /// Args: `n`.
    InterruptLabel,
    /// Like `a = b;` or `a += b;`
    ///
    /// Args: `a, b`.
    AssignOp(AssignOpKind, ScalarType),
    /// Like `a = b + c;`
    ///
    /// Args: `a, b, c`.
    Binop(BinOpKind, ScalarType),
    /// Like `a = sin(b);` (or `a = -a;`, but it seems no formats actually have this?)
    ///
    /// Args: `a, b`.
    Unop(UnOpKind, ScalarType),
    /// Like `if (--x) goto label @ t`.
    ///
    /// Args: `x, label, t`, in an order defined by the ABI.
    CountJmp,
    /// Like `if (a == c) goto label @ t;`
    ///
    /// Args: `a, b, label, t`, in an order defined by the ABI.
    CondJmp(BinOpKind, ScalarType),
    /// First part of a conditional jump in languages where it is comprised of 2 instructions.
    /// Sets a hidden compare register.
    ///
    /// Args: `a, b`
    CondJmp2A(ScalarType),
    /// Second part of a 2-instruction conditional jump in languages where it is comprised of 2
    /// instructions.  Jumps based on the hidden compare register.
    ///
    /// Args: `label, t`, in an order defined by the ABI.
    CondJmp2B(BinOpKind),
}

impl IntrinsicInstrKind {
    pub open spec fn descr_spec(self) -> Seq<char> {
        match self {
            IntrinsicInstrKind::Jmp => "unconditional jump"@,
            IntrinsicInstrKind::InterruptLabel => "interrupt label"@,
            IntrinsicInstrKind::AssignOp(..) => "assign op"@,
            IntrinsicInstrKind::Binop(..) => "binary op"@,
            IntrinsicInstrKind::Unop(..) => "unary op"@,
            IntrinsicInstrKind::CountJmp => "decrement jump"@,
            IntrinsicInstrKind::CondJmp(..) => "conditional jump"@,
            IntrinsicInstrKind::CondJmp2A(..) => "dedicated cmp"@,
            IntrinsicInstrKind::CondJmp2B(..) => "conditional jump after cmp"@,
        }
    }

    /// The operation in words.
    pub fn descr(&self) -> (r: &'static str)
        ensures
            r@ == self.descr_spec(),
    {
        match self {
            IntrinsicInstrKind::Jmp => "unconditional jump",
            IntrinsicInstrKind::InterruptLabel => "interrupt label",
            IntrinsicInstrKind::AssignOp(..) => "assign op",
            IntrinsicInstrKind::Binop(..) => "binary op",
            IntrinsicInstrKind::Unop(..) => "unary op",
            IntrinsicInstrKind::CountJmp => "decrement jump",
            IntrinsicInstrKind::CondJmp(..) => "conditional jump",
            IntrinsicInstrKind::CondJmp2A(..) => "dedicated cmp",
            IntrinsicInstrKind::CondJmp2B(..) => "conditional jump after cmp",
        }
    }
}

/// Pairs with opcodes that follow one another.
pub open spec fn numbered(kinds: Seq<IntrinsicInstrKind>, start: u16) -> Seq<
    (IntrinsicInstrKind, u16),
> {
    Seq::new(kinds.len(), |i: int| (kinds[i], (start + i) as u16))
}

/// The operations of binary ops, in the order of their opcodes.
pub open spec fn binary_op_kinds() -> Seq<IntrinsicInstrKind> {
    seq![
        IntrinsicInstrKind::Binop(BinOpKind::Add, ScalarType::Int),
        IntrinsicInstrKind::Binop(BinOpKind::Add, ScalarType::Float),
        IntrinsicInstrKind::Binop(BinOpKind::Sub, ScalarType::Int),
        IntrinsicInstrKind::Binop(BinOpKind::Sub, ScalarType::Float),
        IntrinsicInstrKind::Binop(BinOpKind::Mul, ScalarType::Int),
        IntrinsicInstrKind::Binop(BinOpKind::Mul, ScalarType::Float),
        IntrinsicInstrKind::Binop(BinOpKind::Div, ScalarType::Int),
        IntrinsicInstrKind::Binop(BinOpKind::Div, ScalarType::Float),
        IntrinsicInstrKind::Binop(BinOpKind::Rem, ScalarType::Int),
        IntrinsicInstrKind::Binop(BinOpKind::Rem, ScalarType::Float),
    ]
}

/// The operations of assign ops, in the order of their opcodes.
pub open spec fn assign_op_kinds() -> Seq<IntrinsicInstrKind> {
    seq![
        IntrinsicInstrKind::AssignOp(AssignOpKind::Assign, ScalarType::Int),
        IntrinsicInstrKind::AssignOp(AssignOpKind::Assign, ScalarType::Float),
        IntrinsicInstrKind::AssignOp(AssignOpKind::Add, ScalarType::Int),
        IntrinsicInstrKind::AssignOp(AssignOpKind::Add, ScalarType::Float),
        IntrinsicInstrKind::AssignOp(AssignOpKind::Sub, ScalarType::Int),
        IntrinsicInstrKind::AssignOp(AssignOpKind::Sub, ScalarType::Float),
        IntrinsicInstrKind::AssignOp(AssignOpKind::Mul, ScalarType::Int),
        IntrinsicInstrKind::AssignOp(AssignOpKind::Mul, ScalarType::Float),
        IntrinsicInstrKind::AssignOp(AssignOpKind::Div, ScalarType::Int),
        IntrinsicInstrKind::AssignOp(AssignOpKind::Div, ScalarType::Float),
        IntrinsicInstrKind::AssignOp(AssignOpKind::Rem, ScalarType::Int),
        IntrinsicInstrKind::AssignOp(AssignOpKind::Rem, ScalarType::Float),
    ]
}

/// The operations of conditional jumps, in the order of their opcodes.
pub open spec fn cond_jump_kinds() -> Seq<IntrinsicInstrKind> {
    seq![
        IntrinsicInstrKind::CondJmp(BinOpKind::Eq, ScalarType::Int),
        IntrinsicInstrKind::CondJmp(BinOpKind::Eq, ScalarType::Float),
        IntrinsicInstrKind::CondJmp(BinOpKind::Ne, ScalarType::Int),
        IntrinsicInstrKind::CondJmp(BinOpKind::Ne, ScalarType::Float),
        IntrinsicInstrKind::CondJmp(BinOpKind::Lt, ScalarType::Int),
        IntrinsicInstrKind::CondJmp(BinOpKind::Lt, ScalarType::Float),
        IntrinsicInstrKind::CondJmp(BinOpKind::Le, ScalarType::Int),
        IntrinsicInstrKind::CondJmp(BinOpKind::Le, ScalarType::Float),
        IntrinsicInstrKind::CondJmp(BinOpKind::Gt, ScalarType::Int),
        IntrinsicInstrKind::CondJmp(BinOpKind::Gt, ScalarType::Float),
        IntrinsicInstrKind::CondJmp(BinOpKind::Ge, ScalarType::Int),
        IntrinsicInstrKind::CondJmp(BinOpKind::Ge, ScalarType::Float),
    ]
}

/// The comparisons of EoSD ECL, in the order of their opcodes.
pub open spec fn olde_ecl_ops() -> Seq<BinOpKind> {
    seq![
        BinOpKind::Lt,
        BinOpKind::Le,
        BinOpKind::Eq,
        BinOpKind::Gt,
        BinOpKind::Ge,
        BinOpKind::Ne,
    ]
}

fn push_numbered(
    pairs: &mut Vec<(IntrinsicInstrKind, u16)>,
    kinds: &Vec<IntrinsicInstrKind>,
    start: u16,
)
    requires
        start + kinds@.len() <= u16::MAX + 1,
    ensures
        final(pairs)@ == old(pairs)@ + numbered(kinds@, start),
{
    let mut i: usize = 0;
    assert(old(pairs)@ + numbered(kinds@, start).take(0) =~= old(pairs)@);
    while i < kinds.len()
        invariant
            i <= kinds@.len(),
            start + kinds@.len() <= u16::MAX + 1,
            pairs@ == old(pairs)@ + numbered(kinds@, start).take(i as int),
        decreases kinds@.len() - i,
    {
        pairs.push((kinds[i], start + i as u16));
        i = i + 1;
        assert(pairs@ =~= old(pairs)@ + numbered(kinds@, start).take(i as int));
    }
    assert(numbered(kinds@, start).take(i as int) =~= numbered(kinds@, start));
}

impl IntrinsicInstrKind {
    /// Add intrinsic pairs for binary operations in `a = b op c` form in their canonical order,
    /// which is `+, -, *, /, %`, with each operator having an int version and a float version.
    pub fn register_binary_ops(pairs: &mut Vec<(IntrinsicInstrKind, u16)>, start: u16)
        requires
            start + 10 <= u16::MAX + 1,
        ensures
            final(pairs)@ == old(pairs)@ + numbered(binary_op_kinds(), start),
    {
        let mut kinds: Vec<IntrinsicInstrKind> = Vec::new();
        let ops = vec![
            BinOpKind::Add,
            BinOpKind::Sub,
            BinOpKind::Mul,
            BinOpKind::Div,
            BinOpKind::Rem,
        ];
        let mut i: usize = 0;
        while i < 5
            invariant
                i <= 5,
                ops@ == seq![
                    BinOpKind::Add,
                    BinOpKind::Sub,
                    BinOpKind::Mul,
                    BinOpKind::Div,
                    BinOpKind::Rem,
                ],
                kinds@ == binary_op_kinds().take(2 * i),
            decreases 5 - i,
        {
            kinds.push(IntrinsicInstrKind::Binop(ops[i], ScalarType::Int));
            kinds.push(IntrinsicInstrKind::Binop(ops[i], ScalarType::Float));
            i = i + 1;
            assert(kinds@ =~= binary_op_kinds().take(2 * i));
        }
        assert(kinds@ =~= binary_op_kinds());
        push_numbered(pairs, &kinds, start);
    }

    /// Add intrinsic pairs for assign ops in their cannonical order: `=, +=, -=, *=, /=, %=`,
    /// with each operator having an int version and a float version.
    pub fn register_assign_ops(pairs: &mut Vec<(IntrinsicInstrKind, u16)>, start: u16)
        requires
            start + 12 <= u16::MAX + 1,
        ensures
            final(pairs)@ == old(pairs)@ + numbered(assign_op_kinds(), start),
    {
        let mut kinds: Vec<IntrinsicInstrKind> = Vec::new();
        let ops = vec![
            AssignOpKind::Assign,
            AssignOpKind::Add,
            AssignOpKind::Sub,
            AssignOpKind::Mul,
            AssignOpKind::Div,
            AssignOpKind::Rem,
        ];
        let mut i: usize = 0;
        while i < 6
            invariant
                i <= 6,
                ops@ == seq![
                    AssignOpKind::Assign,
                    AssignOpKind::Add,
                    AssignOpKind::Sub,
                    AssignOpKind::Mul,
                    AssignOpKind::Div,
                    AssignOpKind::Rem,
                ],
                kinds@ == assign_op_kinds().take(2 * i),
            decreases 6 - i,
        {
            kinds.push(IntrinsicInstrKind::AssignOp(ops[i], ScalarType::Int));
            kinds.push(IntrinsicInstrKind::AssignOp(ops[i], ScalarType::Float));
            i = i + 1;
            assert(kinds@ =~= assign_op_kinds().take(2 * i));
        }
        assert(kinds@ =~= assign_op_kinds());
        push_numbered(pairs, &kinds, start);
    }

    /// Add intrinsic pairs for conditional jumps in their cannonical order: `==, !=, <, <=, >, >=`,
    /// with each operator having an int version and a float version.
    pub fn register_cond_jumps(pairs: &mut Vec<(IntrinsicInstrKind, u16)>, start: u16)
        requires
            start + 12 <= u16::MAX + 1,
        ensures
            final(pairs)@ == old(pairs)@ + numbered(cond_jump_kinds(), start),
    {
        let mut kinds: Vec<IntrinsicInstrKind> = Vec::new();
        let ops = vec![
            BinOpKind::Eq,
            BinOpKind::Ne,
            BinOpKind::Lt,
            BinOpKind::Le,
            BinOpKind::Gt,
            BinOpKind::Ge,
        ];
        let mut i: usize = 0;
        while i < 6
            invariant
                i <= 6,
                ops@ == seq![
                    BinOpKind::Eq,
                    BinOpKind::Ne,
                    BinOpKind::Lt,
                    BinOpKind::Le,
                    BinOpKind::Gt,
                    BinOpKind::Ge,
                ],
                kinds@ == cond_jump_kinds().take(2 * i),
            decreases 6 - i,
        {
            kinds.push(IntrinsicInstrKind::CondJmp(ops[i], ScalarType::Int));
            kinds.push(IntrinsicInstrKind::CondJmp(ops[i], ScalarType::Float));
            i = i + 1;
            assert(kinds@ =~= cond_jump_kinds().take(2 * i));
        }
        assert(kinds@ =~= cond_jump_kinds());
        push_numbered(pairs, &kinds, start);
    }

    /// Register a sequence of six comparison based ops in the order used by EoSD ECL:
    /// `<, <=, ==, >, >=, !=`
    pub fn register_olde_ecl_comp_ops<F: Fn(BinOpKind) -> IntrinsicInstrKind>(
        pairs: &mut Vec<(IntrinsicInstrKind, u16)>,
        start: u16,
        kind_fn: F,
    )
        requires
            start + 6 <= u16::MAX + 1,
            forall|op: BinOpKind| #[trigger] call_requires(kind_fn, (op,)),
        ensures
            final(pairs)@.len() == old(pairs)@.len() + 6,
            final(pairs)@.take(old(pairs)@.len() as int) == old(pairs)@,
            forall|i: int|
                0 <= i < 6 ==> {
                    let pair = #[trigger] final(pairs)@[old(pairs)@.len() + i];
                    call_ensures(kind_fn, (olde_ecl_ops()[i],), pair.0) && pair.1 == start + i
                },
    {
        let ops = vec![
            BinOpKind::Lt,
            BinOpKind::Le,
            BinOpKind::Eq,
            BinOpKind::Gt,
            BinOpKind::Ge,
            BinOpKind::Ne,
        ];
        assert(ops@ =~= olde_ecl_ops());
        let ghost n = pairs@.len();
        let mut i: usize = 0;
        assert(pairs@.take(n as int) =~= pairs@);
        while i < 6
            invariant
                i <= 6,
                start + 6 <= u16::MAX + 1,
                ops@ == olde_ecl_ops(),
                n == old(pairs)@.len(),
                forall|op: BinOpKind| #[trigger] call_requires(kind_fn, (op,)),
                pairs@.len() == n + i,
                pairs@.take(n as int) == old(pairs)@,
                forall|k: int|
                    0 <= k < i ==> {
                        let pair = #[trigger] pairs@[n + k];
                        call_ensures(kind_fn, (olde_ecl_ops()[k],), pair.0) && pair.1 == start + k
                    },
            decreases 6 - i,
        {
            let op = ops[i];
            assert(call_requires(kind_fn, (op,)));
            let kind = kind_fn(op);
            let ghost before = pairs@;
            pairs.push((kind, start + i as u16));
            proof {
                assert(pairs@.take(n as int) =~= before.take(n as int));
                assert forall|k: int| 0 <= k < i + 1 implies {
                    let pair = #[trigger] pairs@[n + k];
                    call_ensures(kind_fn, (olde_ecl_ops()[k],), pair.0) && pair.1 == start + k
                } by {
                    if k < i {
                        assert(pairs@[n + k] == before[n + k]);
                    }
                }
            }
            i = i + 1;
        }
    }
}

// =============================================================================

/// Indicates that the ABI contains this many padding dwords at the end,
/// which cannot be represented in the AST if they are nonzero.
#[derive(Debug, Copy, Clone, PartialEq, Eq, Structural)]
pub struct UnrepresentablePadding {
    pub index: usize,
    pub count: usize,
}

/// Describes the order of jump arguments.
#[derive(Debug, Copy, Clone, PartialEq, Eq, Structural)]
pub struct JumpArgOrder {
    pub index: usize,
    pub kind: JumpArgOrderKind,
}

#[derive(Debug, Copy, Clone, PartialEq, Eq, Structural)]
pub enum JumpArgOrderKind {
    TimeLoc,
    LocTime,
    /// Always uses timeof(destination).
    Loc,
}

/// Describes how an output register is encoded (e.g. is a float register encoded as "f" or "S")?
#[derive(Debug, Copy, Clone, PartialEq, Eq, Structural)]
pub struct OutOperandType {
    pub index: usize,
    pub kind: OutOperandTypeKind,
}

#[derive(Debug, Copy, Clone, PartialEq, Eq, Structural)]
pub enum OutOperandTypeKind {
    /// It's a float register, but is written to file as an integer. (used by EoSD ECL)
    FloatAsInt,
    /// The register is saved to file using the same datatype as it has in the AST.
    Natural,
}

/// An operator input argument.
#[derive(Debug, Copy, Clone, PartialEq, Eq, Structural)]
pub struct InputOperandType {
    pub index: usize,
}

/// An argument that must be an immediate.
#[derive(Debug, Copy, Clone, PartialEq, Eq, Structural)]
pub struct ImmediateInt {
    pub index: usize,
}

/// Streamlines the relationship between the ABI of an intrinsic and how it is expressed
/// in the AST.
///
/// One can think of this as defining the relationship between syntax sugar
/// (e.g. `if (a == 3) goto label`) and raw instruction syntax
/// (e.g. `ins_2(a, 3, offsetof(label), timeof(label))`).
///
/// Having one of these indicates that the ABI has been validated to be compatible with
/// this intrinsic and we know where all of the pieces of the statement belong in the
/// raw, encoded argument list.
///
/// The `usize`s are all indices into the encoded argument list.
#[derive(Debug, Copy, Clone, PartialEq, Eq)]
pub struct IntrinsicInstrAbiProps {
    pub num_instr_args: usize,
    pub kind: IntrinsicInstrAbiPropsKind,
}

#[derive(Debug, Copy, Clone, PartialEq, Eq)]
#[allow(inconsistent_fields)]
pub enum IntrinsicInstrAbiPropsKind {
    Jmp { padding: UnrepresentablePadding, jump: JumpArgOrder },
    InterruptLabel { padding: UnrepresentablePadding, label: ImmediateInt },
    AssignOp { dest: OutOperandType, rhs: InputOperandType },
    Binop { dest: OutOperandType, args: (InputOperandType, InputOperandType) },
    Unop { dest: OutOperandType, arg: InputOperandType },
    CountJmp { arg: OutOperandType, jump: JumpArgOrder },
    CondJmp { args: (InputOperandType, InputOperandType), jump: JumpArgOrder },
    CondJmp2A { args: (InputOperandType, InputOperandType) },
    CondJmp2B { jump: JumpArgOrder },
}

/// Why the ABI of an instruction does not fit an intrinsic.
#[derive(Debug, Copy, Clone, PartialEq, Eq, Structural)]
#[allow(inconsistent_fields)]
pub enum AbiErrorKind {
    /// There is no ABI for the opcode.
    NoSignature,
    MissingOffset,
    NotConsecutive,
    NotEnoughArgs,
    BadEncoding { encoding: ArgEncoding },
    /// An argument that the intrinsic does not have, with its number counted from one.
    UnexpectedArg { encoding: ArgEncoding, number: usize },
}

impl AbiErrorKind {
    pub open spec fn message_spec(self) -> Seq<char> {
        match self {
            AbiErrorKind::NoSignature => "instruction has no signature"@,
            AbiErrorKind::MissingOffset => "missing jump offset ('o')"@,
            AbiErrorKind::NotConsecutive =>
                "offset ('o') and time ('t') args must be consecutive"@,
            AbiErrorKind::NotEnoughArgs => "not enough arguments"@,
            AbiErrorKind::BadEncoding { encoding } => "output arg has unexpected encoding ("@
                + encoding.descr_spec() + ")"@,
            AbiErrorKind::UnexpectedArg { encoding, number } => "unexpected "@
                + encoding.descr_spec() + " arg at index "@ + decimal_spec(number as nat),
        }
    }

    /// The error in words.
    pub fn message(&self) -> (r: String)
        ensures
            r@ == self.message_spec(),
    {
        match *self {
            AbiErrorKind::NoSignature => String::from_str("instruction has no signature"),
            AbiErrorKind::MissingOffset => String::from_str("missing jump offset ('o')"),
            AbiErrorKind::NotConsecutive => String::from_str(
                "offset ('o') and time ('t') args must be consecutive",
            ),
            AbiErrorKind::NotEnoughArgs => String::from_str("not enough arguments"),
            AbiErrorKind::BadEncoding { encoding } => {
                let mut out = String::from_str("output arg has unexpected encoding (");
                out.append(encoding.descr());
                out.append(")");
                out
            },
            AbiErrorKind::UnexpectedArg { encoding, number } => {
                let mut out = String::from_str("unexpected ");
                out.append(encoding.descr());
                out.append(" arg at index ");
                push_decimal(&mut out, number as u64);
                out
            },
        }
    }
}

/// Arguments that have not been accounted for, with their indices.
pub type ArgsV = Seq<(usize, ArgEncoding)>;

/// All arguments of an instruction.
pub open spec fn enumerated(encodings: Seq<ArgEncoding>) -> ArgsV {
    Seq::new(encodings.len(), |i: int| (i as usize, encodings[i]))
}

/// The arguments before the padding at the end.
pub open spec fn before_padding(args: ArgsV) -> ArgsV
    decreases args.len(),
{
    if args.len() > 0 && args.last().1 is Padding {
        before_padding(args.drop_last())
    } else {
        args
    }
}

/// The padding at the end of an instruction.
pub open spec fn padding_of(args: ArgsV) -> UnrepresentablePadding {
    UnrepresentablePadding {
        index: before_padding(args).len() as usize,
        count: (args.len() - before_padding(args).len()) as usize,
    }
}

/// Where the first argument of an encoding is among the first `n`.
pub open spec fn first_with(args: ArgsV, encoding: ArgEncoding, n: nat) -> Option<int>
    decreases n,
{
    if n == 0 {
        None
    } else if first_with(args, encoding, (n - 1) as nat) is Some {
        first_with(args, encoding, (n - 1) as nat)
    } else if args[n - 1].1 == encoding {
        Some(n - 1)
    } else {
        None
    }
}

/// The index of the first argument of an encoding, and the arguments without it.
pub open spec fn take_first(args: ArgsV, encoding: ArgEncoding) -> (Option<usize>, ArgsV) {
    match first_with(args, encoding, args.len()) {
        Some(i) => (Some(args[i].0), args.remove(i)),
        None => (None, args),
    }
}

/// The arguments of a jump, and the other arguments.
pub open spec fn take_jump(args: ArgsV) -> Result<(JumpArgOrder, ArgsV), AbiErrorKind> {
    let (offset, args) = take_first(args, ArgEncoding::JumpOffset);
    let (time, args) = take_first(args, ArgEncoding::JumpTime);
    match (offset, time) {
        (None, _) => Err(AbiErrorKind::MissingOffset),
        (Some(o), None) => Ok((JumpArgOrder { index: o, kind: JumpArgOrderKind::Loc }, args)),
        (Some(o), Some(t)) => if t == o + 1 {
            Ok((JumpArgOrder { index: o, kind: JumpArgOrderKind::LocTime }, args))
        } else if t + 1 == o {
            Ok((JumpArgOrder { index: t, kind: JumpArgOrderKind::TimeLoc }, args))
        } else {
            Err(AbiErrorKind::NotConsecutive)
        },
    }
}

/// The register that receives a result, and the other arguments.
pub open spec fn take_out(args: ArgsV, ty: ScalarType) -> Result<
    (OutOperandType, ArgsV),
    AbiErrorKind,
> {
    if args.len() == 0 {
        Err(AbiErrorKind::NotEnoughArgs)
    } else {
        let (index, encoding) = args[0];
        match (ty, encoding) {
            (ScalarType::Int, ArgEncoding::Dword) => Ok(
                (OutOperandType { index, kind: OutOperandTypeKind::Natural }, args.remove(0)),
            ),
            (ScalarType::Float, ArgEncoding::Float) => Ok(
                (OutOperandType { index, kind: OutOperandTypeKind::Natural }, args.remove(0)),
            ),
            (ScalarType::Float, ArgEncoding::Dword) => Ok(
                (OutOperandType { index, kind: OutOperandTypeKind::FloatAsInt }, args.remove(0)),
            ),
            (_, _) => Err(AbiErrorKind::BadEncoding { encoding }),
        }
    }
}

/// An operand, and the other arguments.
pub open spec fn take_input(args: ArgsV, ty: ScalarType) -> Result<
    (InputOperandType, ArgsV),
    AbiErrorKind,
> {
    if args.len() == 0 {
        Err(AbiErrorKind::NotEnoughArgs)
    } else {
        let (index, encoding) = args[0];
        match (ty, encoding) {
            (ScalarType::Int, ArgEncoding::Dword) => Ok(
                (InputOperandType { index }, args.remove(0)),
            ),
            (ScalarType::Float, ArgEncoding::Float) => Ok(
                (InputOperandType { index }, args.remove(0)),
            ),
            (_, _) => Err(AbiErrorKind::BadEncoding { encoding }),
        }
    }
}

/// Two operands of one type, and the other arguments.
pub open spec fn take_inputs(args: ArgsV, ty: ScalarType) -> Result<
    ((InputOperandType, InputOperandType), ArgsV),
    AbiErrorKind,
> {
    match take_input(args, ty) {
        Err(e) => Err(e),
        Ok((a, args)) => match take_input(args, ty) {
            Err(e) => Err(e),
            Ok((b, args)) => Ok(((a, b), args)),
        },
    }
}

/// A result of an operation on one operand, with the operand.
pub open spec fn take_out_and_input(args: ArgsV, out_ty: ScalarType, ty: ScalarType) -> Result<
    ((OutOperandType, InputOperandType), ArgsV),
    AbiErrorKind,
> {
    match take_out(args, out_ty) {
        Err(e) => Err(e),
        Ok((dest, args)) => match take_input(args, ty) {
            Err(e) => Err(e),
            Ok((arg, args)) => Ok(((dest, arg), args)),
        },
    }
}

/// The type of the result of an operator whose operands have a type.
pub open spec fn binop_ty_from_arg_ty_spec(op: BinOpKind, arg_ty: ScalarType) -> ScalarType {
    if op.class_spec() is Arithmetic {
        arg_ty
    } else {
        ScalarType::Int
    }
}

/// The type of the result of an operator whose operands have a type.
pub fn binop_ty_from_arg_ty(op: BinOpKind, arg_ty: ScalarType) -> (r: ScalarType)
    ensures
        r == binop_ty_from_arg_ty_spec(op, arg_ty),
{
    if op.class() == OpClass::Arithmetic {
        arg_ty
    } else {
        ScalarType::Int
    }
}

/// Where the parts of an intrinsic are among arguments, and the arguments that are left.
pub open spec fn take_intrinsic(intrinsic: IntrinsicInstrKind, args: ArgsV) -> Result<
    (IntrinsicInstrAbiPropsKind, ArgsV),
    AbiErrorKind,
> {
    match intrinsic {
        IntrinsicInstrKind::Jmp => match take_jump(before_padding(args)) {
            Err(e) => Err(e),
            Ok((jump, rest)) => Ok(
                (IntrinsicInstrAbiPropsKind::Jmp { padding: padding_of(args), jump }, rest),
            ),
        },
        IntrinsicInstrKind::InterruptLabel => match take_input(
            before_padding(args),
            ScalarType::Int,
        ) {
            Err(e) => Err(e),
            Ok((label, rest)) => Ok(
                (
                    IntrinsicInstrAbiPropsKind::InterruptLabel {
                        padding: padding_of(args),
                        label: ImmediateInt { index: label.index },
                    },
                    rest,
                ),
            ),
        },
        IntrinsicInstrKind::AssignOp(_, ty) => match take_out_and_input(args, ty, ty) {
            Err(e) => Err(e),
            Ok(((dest, rhs), rest)) => Ok(
                (IntrinsicInstrAbiPropsKind::AssignOp { dest, rhs }, rest),
            ),
        },
        IntrinsicInstrKind::Binop(op, ty) => match take_out(
            args,
            binop_ty_from_arg_ty_spec(op, ty),
        ) {
            Err(e) => Err(e),
            Ok((dest, rest)) => match take_inputs(rest, ty) {
                Err(e) => Err(e),
                Ok((operands, rest)) => Ok(
                    (IntrinsicInstrAbiPropsKind::Binop { dest, args: operands }, rest),
                ),
            },
        },
        IntrinsicInstrKind::Unop(_, ty) => match take_out_and_input(args, ty, ty) {
            Err(e) => Err(e),
            Ok(((dest, arg), rest)) => Ok((IntrinsicInstrAbiPropsKind::Unop { dest, arg }, rest)),
        },
        IntrinsicInstrKind::CountJmp => match take_jump(args) {
            Err(e) => Err(e),
            Ok((jump, rest)) => match take_out(rest, ScalarType::Int) {
                Err(e) => Err(e),
                Ok((arg, rest)) => Ok((IntrinsicInstrAbiPropsKind::CountJmp { arg, jump }, rest)),
            },
        },
        IntrinsicInstrKind::CondJmp(_, ty) => match take_jump(args) {
            Err(e) => Err(e),
            Ok((jump, rest)) => match take_inputs(rest, ty) {
                Err(e) => Err(e),
                Ok((operands, rest)) => Ok(
                    (IntrinsicInstrAbiPropsKind::CondJmp { args: operands, jump }, rest),
                ),
            },
        },
        IntrinsicInstrKind::CondJmp2A(ty) => match take_inputs(args, ty) {
            Err(e) => Err(e),
            Ok((operands, rest)) => Ok(
                (IntrinsicInstrAbiPropsKind::CondJmp2A { args: operands }, rest),
            ),
        },
        IntrinsicInstrKind::CondJmp2B(_) => match take_jump(args) {
            Err(e) => Err(e),
            Ok((jump, rest)) => Ok((IntrinsicInstrAbiPropsKind::CondJmp2B { jump }, rest)),
        },
    }
}

/// Where the parts of an intrinsic are in an instruction.
pub open spec fn abi_props(intrinsic: IntrinsicInstrKind, encodings: Seq<ArgEncoding>) -> Result<
    IntrinsicInstrAbiProps,
    AbiErrorKind,
> {
    match take_intrinsic(intrinsic, enumerated(encodings)) {
        Err(e) => Err(e),
        Ok((kind, rest)) => if rest.len() > 0 {
            Err(
                AbiErrorKind::UnexpectedArg {
                    encoding: rest[0].1,
                    number: (rest[0].0 + 1) as usize,
                },
            )
        } else {
            Ok(IntrinsicInstrAbiProps { num_instr_args: encodings.len() as usize, kind })
        },
    }
}

// -----------------------------------------------------------------------------

/// Whether arguments have indices that an instruction can have.
spec fn in_bounds(args: ArgsV, n: int) -> bool {
    forall|i: int| 0 <= i < args.len() ==> (#[trigger] args[i]).0 < n
}

impl UnrepresentablePadding {
    fn detect_and_remove(arg_encodings: &mut Vec<(usize, ArgEncoding)>, n: usize) -> (r: Self)
        requires
            old(arg_encodings)@.len() <= n,
            in_bounds(old(arg_encodings)@, n as int),
        ensures
            r == padding_of(old(arg_encodings)@),
            final(arg_encodings)@ == before_padding(old(arg_encodings)@),
            final(arg_encodings)@.len() <= n,
            in_bounds(final(arg_encodings)@, n as int),
    {
        let ghost all = arg_encodings@;
        let len: usize = arg_encodings.len();
        let mut count: usize = 0;
        while arg_encodings.len() > 0 && arg_encodings[arg_encodings.len() - 1].1
            == ArgEncoding::Padding
            invariant
                all == old(arg_encodings)@,
                len == all.len(),
                len <= n,
                in_bounds(arg_encodings@, n as int),
                arg_encodings@.len() + count == len,
                before_padding(arg_encodings@) == before_padding(all),
            decreases arg_encodings@.len(),
        {
            let ghost before = arg_encodings@;
            arg_encodings.pop();
            count = count + 1;
            assert(arg_encodings@ =~= before.drop_last());
            assert forall|i: int| 0 <= i < arg_encodings@.len() implies (
            #[trigger] arg_encodings@[i]).0 < n by {
                assert(arg_encodings@[i] == before[i]);
            }
        }
        UnrepresentablePadding { count, index: arg_encodings.len() }
    }
}

proof fn lemma_first_stays(args: ArgsV, encoding: ArgEncoding, m: nat, n: nat)
    requires
        m <= n,
        first_with(args, encoding, m) is Some,
    ensures
        first_with(args, encoding, n) == first_with(args, encoding, m),
    decreases n,
{
    if m < n {
        lemma_first_stays(args, encoding, m, (n - 1) as nat);
    }
}

/// Remove the first argument of an encoding and give its index.
fn remove_first_where(vec: &mut Vec<(usize, ArgEncoding)>, encoding: ArgEncoding, n: usize) -> (r:
    Option<usize>)
    requires
        in_bounds(old(vec)@, n as int),
    ensures
        (r, final(vec)@) == take_first(old(vec)@, encoding),
        in_bounds(final(vec)@, n as int),
        r matches Some(i) ==> i < n,
{
    let mut i: usize = 0;
    while i < vec.len()
        invariant
            i <= vec@.len(),
            vec@ == old(vec)@,
            in_bounds(vec@, n as int),
            first_with(vec@, encoding, i as nat) is None,
        decreases vec@.len() - i,
    {
        if vec[i].1 == encoding {
            proof {
                lemma_first_stays(vec@, encoding, (i + 1) as nat, vec@.len());
            }
            let ghost before = vec@;
            let (index, _) = vec.remove(i);
            proof {
                assert(before[i as int].0 == index);
                assert forall|k: int| 0 <= k < vec@.len() implies (#[trigger] vec@[k]).0 < n by {
                    if k < i {
                        assert(vec@[k] == before[k]);
                    } else {
                        assert(vec@[k] == before[k + 1]);
                    }
                }
            }
            return Some(index);
        }
        i = i + 1;
    }
    None
}

/// Remove the first argument.
fn remove_front(vec: &mut Vec<(usize, ArgEncoding)>, n: usize) -> (r: Option<(usize, ArgEncoding)>)
    requires
        in_bounds(old(vec)@, n as int),
    ensures
        in_bounds(final(vec)@, n as int),
        match r {
            Some(arg) => old(vec)@.len() > 0 && arg == old(vec)@[0] && final(vec)@ == old(
                vec,
            )@.remove(0),
            None => old(vec)@.len() == 0 && final(vec)@ == old(vec)@,
        },
{
    if vec.len() == 0 {
        return None;
    }
    let ghost before = vec@;
    let arg = vec.remove(0);
    assert forall|k: int| 0 <= k < vec@.len() implies (#[trigger] vec@[k]).0 < n by {
        assert(vec@[k] == before[k + 1]);
    }
    Some(arg)
}

impl JumpArgOrder {
    fn find_and_remove(arg_encodings: &mut Vec<(usize, ArgEncoding)>, n: usize) -> (r: Result<
        Self,
        AbiErrorKind,
    >)
        requires
            in_bounds(old(arg_encodings)@, n as int),
        ensures
            in_bounds(final(arg_encodings)@, n as int),
            match take_jump(old(arg_encodings)@) {
                Ok((jump, rest)) => r == Ok::<Self, AbiErrorKind>(jump) && final(arg_encodings)@
                    == rest,
                Err(e) => r == Err::<Self, AbiErrorKind>(e),
            },
    {
        let offset_index = remove_first_where(arg_encodings, ArgEncoding::JumpOffset, n);
        let time_index = remove_first_where(arg_encodings, ArgEncoding::JumpTime, n);
        let offset: usize = match offset_index {
            Some(o) => o,
            None => return Err(AbiErrorKind::MissingOffset),
        };
        if let Some(time) = time_index {
            if time == offset + 1 {
                Ok(JumpArgOrder { index: offset, kind: JumpArgOrderKind::LocTime })
            } else if time + 1 == offset {
                Ok(JumpArgOrder { index: time, kind: JumpArgOrderKind::TimeLoc })
            } else {
                Err(AbiErrorKind::NotConsecutive)
            }
        } else {
            Ok(JumpArgOrder { index: offset, kind: JumpArgOrderKind::Loc })
        }
    }
}

impl OutOperandType {
    fn remove(arg_encodings: &mut Vec<(usize, ArgEncoding)>, n: usize, ty_in_ast: ScalarType) -> (r:
        Result<Self, AbiErrorKind>)
        requires
            in_bounds(old(arg_encodings)@, n as int),
        ensures
            in_bounds(final(arg_encodings)@, n as int),
            match take_out(old(arg_encodings)@, ty_in_ast) {
                Ok((out, rest)) => r == Ok::<Self, AbiErrorKind>(out) && final(arg_encodings)@
                    == rest,
                Err(e) => r == Err::<Self, AbiErrorKind>(e),
            },
    {
        // it is expected that everything before the out operand has been removed already.
        let (index, encoding) = match remove_front(arg_encodings, n) {
            Some(arg) => arg,
            None => return Err(AbiErrorKind::NotEnoughArgs),
        };
        match (ty_in_ast, encoding) {
            (ScalarType::Int, ArgEncoding::Dword) | (ScalarType::Float, ArgEncoding::Float) => Ok(
                OutOperandType { index, kind: OutOperandTypeKind::Natural },
            ),
            (ScalarType::Float, ArgEncoding::Dword) => Ok(
                OutOperandType { index, kind: OutOperandTypeKind::FloatAsInt },
            ),
            (_, _) => Err(AbiErrorKind::BadEncoding { encoding }),
        }
    }
}

impl InputOperandType {
    fn remove(arg_encodings: &mut Vec<(usize, ArgEncoding)>, n: usize, ty_in_ast: ScalarType) -> (r:
        Result<Self, AbiErrorKind>)
        requires
            in_bounds(old(arg_encodings)@, n as int),
        ensures
            in_bounds(final(arg_encodings)@, n as int),
            match take_input(old(arg_encodings)@, ty_in_ast) {
                Ok((x, rest)) => r == Ok::<Self, AbiErrorKind>(x) && final(arg_encodings)@
                    == rest,
                Err(e) => r == Err::<Self, AbiErrorKind>(e),
            },
    {
        let (index, encoding) = match remove_front(arg_encodings, n) {
            Some(arg) => arg,
            None => return Err(AbiErrorKind::NotEnoughArgs),
        };
        match (ty_in_ast, encoding) {
            (ScalarType::Int, ArgEncoding::Dword) | (ScalarType::Float, ArgEncoding::Float) => Ok(
                InputOperandType { index },
            ),
            (_, _) => Err(AbiErrorKind::BadEncoding { encoding }),
        }
    }

    fn remove_two(arg_encodings: &mut Vec<(usize, ArgEncoding)>, n: usize, ty_in_ast: ScalarType) -> (r:
        Result<(Self, Self), AbiErrorKind>)
        requires
            in_bounds(old(arg_encodings)@, n as int),
        ensures
            in_bounds(final(arg_encodings)@, n as int),
            match take_inputs(old(arg_encodings)@, ty_in_ast) {
                Ok((x, rest)) => r == Ok::<(Self, Self), AbiErrorKind>(x) && final(arg_encodings)@
                    == rest,
                Err(e) => r == Err::<(Self, Self), AbiErrorKind>(e),
            },
    {
        let a = match InputOperandType::remove(arg_encodings, n, ty_in_ast) {
            Ok(x) => x,
            Err(e) => return Err(e),
        };
        match InputOperandType::remove(arg_encodings, n, ty_in_ast) {
            Ok(b) => Ok((a, b)),
            Err(e) => Err(e),
        }
    }
}

impl ImmediateInt {
    fn remove(arg_encodings: &mut Vec<(usize, ArgEncoding)>, n: usize) -> (r: Result<
        Self,
        AbiErrorKind,
    >)
        requires
            in_bounds(old(arg_encodings)@, n as int),
        ensures
            in_bounds(final(arg_encodings)@, n as int),
            match take_input(old(arg_encodings)@, ScalarType::Int) {
                Ok((x, rest)) => r == Ok::<Self, AbiErrorKind>(ImmediateInt { index: x.index })
                    && final(arg_encodings)@ == rest,
                Err(e) => r == Err::<Self, AbiErrorKind>(e),
            },
    {
        match InputOperandType::remove(arg_encodings, n, ScalarType::Int) {
            Ok(x) => Ok(ImmediateInt { index: x.index }),
            Err(e) => Err(e),
        }
    }
}

impl IntrinsicInstrAbiProps {
    /// Find the parts of an intrinsic in an instruction.
    pub fn from_abi(intrinsic: IntrinsicInstrKind, abi: &InstrAbi) -> (r: Result<
        Self,
        AbiErrorKind,
    >)
        ensures
            r == abi_props(intrinsic, abi@),
    {
        let n: usize = abi.encodings.len();
        let mut encodings: Vec<(usize, ArgEncoding)> = Vec::new();
        let mut i: usize = 0;
        while i < n
            invariant
                i <= n,
                n == abi.encodings@.len(),
                encodings@ == enumerated(abi@).take(i as int),
            decreases n - i,
        {
            encodings.push((i, abi.encodings[i]));
            i = i + 1;
            assert(encodings@ =~= enumerated(abi@).take(i as int));
        }
        assert(encodings@ =~= enumerated(abi@));
        match Self::take_parts(intrinsic, &mut encodings, n) {
            Err(e) => Err(e),
            Ok(kind) => {
                if encodings.len() > 0 {
                    let (index, encoding) = encodings[0];
                    Err(AbiErrorKind::UnexpectedArg { encoding, number: index + 1 })
                } else {
                    Ok(IntrinsicInstrAbiProps { num_instr_args: n, kind })
                }
            },
        }
    }

    fn take_parts(
        intrinsic: IntrinsicInstrKind,
        encodings: &mut Vec<(usize, ArgEncoding)>,
        n: usize,
    ) -> (r: Result<IntrinsicInstrAbiPropsKind, AbiErrorKind>)
        requires
            old(encodings)@.len() <= n,
            in_bounds(old(encodings)@, n as int),
        ensures
            in_bounds(final(encodings)@, n as int),
            match take_intrinsic(intrinsic, old(encodings)@) {
                Ok((kind, rest)) => r == Ok::<IntrinsicInstrAbiPropsKind, AbiErrorKind>(kind)
                    && final(encodings)@ == rest,
                Err(e) => r == Err::<IntrinsicInstrAbiPropsKind, AbiErrorKind>(e),
            },
    {
        match intrinsic {
            IntrinsicInstrKind::Jmp => {
                let padding = UnrepresentablePadding::detect_and_remove(encodings, n);
                match JumpArgOrder::find_and_remove(encodings, n) {
                    Ok(jump) => Ok(IntrinsicInstrAbiPropsKind::Jmp { padding, jump }),
                    Err(e) => Err(e),
                }
            },
            IntrinsicInstrKind::InterruptLabel => {
                let padding = UnrepresentablePadding::detect_and_remove(encodings, n);
                match ImmediateInt::remove(encodings, n) {
                    Ok(label) => Ok(IntrinsicInstrAbiPropsKind::InterruptLabel { padding, label }),
                    Err(e) => Err(e),
                }
            },
            IntrinsicInstrKind::AssignOp(_, ty) => {
                let dest = match OutOperandType::remove(encodings, n, ty) {
                    Ok(x) => x,
                    Err(e) => return Err(e),
                };
                match InputOperandType::remove(encodings, n, ty) {
                    Ok(rhs) => Ok(IntrinsicInstrAbiPropsKind::AssignOp { dest, rhs }),
                    Err(e) => Err(e),
                }
            },
            IntrinsicInstrKind::Binop(op, arg_ty) => {
                let out_ty = binop_ty_from_arg_ty(op, arg_ty);
                let dest = match OutOperandType::remove(encodings, n, out_ty) {
                    Ok(x) => x,
                    Err(e) => return Err(e),
                };
                match InputOperandType::remove_two(encodings, n, arg_ty) {
                    Ok(args) => Ok(IntrinsicInstrAbiPropsKind::Binop { dest, args }),
                    Err(e) => Err(e),
                }
            },
            IntrinsicInstrKind::Unop(_, ty) => {
                let dest = match OutOperandType::remove(encodings, n, ty) {
                    Ok(x) => x,
                    Err(e) => return Err(e),
                };
                match InputOperandType::remove(encodings, n, ty) {
                    Ok(arg) => Ok(IntrinsicInstrAbiPropsKind::Unop { dest, arg }),
                    Err(e) => Err(e),
                }
            },
            IntrinsicInstrKind::CountJmp => {
                let jump = match JumpArgOrder::find_and_remove(encodings, n) {
                    Ok(x) => x,
                    Err(e) => return Err(e),
                };
                match OutOperandType::remove(encodings, n, ScalarType::Int) {
                    Ok(arg) => Ok(IntrinsicInstrAbiPropsKind::CountJmp { arg, jump }),
                    Err(e) => Err(e),
                }
            },
            IntrinsicInstrKind::CondJmp(_, ty) => {
                let jump = match JumpArgOrder::find_and_remove(encodings, n) {
                    Ok(x) => x,
                    Err(e) => return Err(e),
                };
                match InputOperandType::remove_two(encodings, n, ty) {
                    Ok(args) => Ok(IntrinsicInstrAbiPropsKind::CondJmp { args, jump }),
                    Err(e) => Err(e),
                }
            },
            IntrinsicInstrKind::CondJmp2A(ty) => {
                match InputOperandType::remove_two(encodings, n, ty) {
                    Ok(args) => Ok(IntrinsicInstrAbiPropsKind::CondJmp2A { args }),
                    Err(e) => Err(e),
                }
            },
            IntrinsicInstrKind::CondJmp2B(_) => {
                match JumpArgOrder::find_and_remove(encodings, n) {
                    Ok(jump) => Ok(IntrinsicInstrAbiPropsKind::CondJmp2B { jump }),
                    Err(e) => Err(e),
                }
            },
        }
    }
}

// =============================================================================

/// An ABI that does not fit an intrinsic.
#[derive(Debug, Copy, Clone)]
pub struct IntrinsicAbiError {
    pub kind: AbiErrorKind,
    /// The intrinsic, at the place where it is given an opcode.
    pub intrinsic: Sp<IntrinsicInstrKind>,
    /// The place of the ABI, where there is one.
    pub abi: Option<Span>,
}

/// "feature not supported by format"
#[derive(Debug)]
pub struct UnsupportedFeature {
    pub span: Span,
    /// What is not supported, in words.
    pub label: String,
}

/// An intrinsic with its opcode and the layout of its arguments.
#[derive(Debug, Copy, Clone)]
pub struct IntrinsicEntry {
    pub kind: IntrinsicInstrKind,
    pub opcode: u16,
    pub props: IntrinsicInstrAbiProps,
}

/// Maps opcodes to and from intrinsics.
#[derive(Debug)]
pub struct IntrinsicInstrs {
    pub entries: Vec<IntrinsicEntry>,
}

/// An intrinsic, at the place where it is given an opcode, and the opcode.
pub type IntrinsicPair = (Sp<IntrinsicInstrKind>, u16);

/// The pairs of all intrinsics but one.
pub open spec fn without_kind(pairs: Seq<IntrinsicPair>, kind: IntrinsicInstrKind) -> Seq<
    IntrinsicPair,
> {
    pairs.filter(|p: IntrinsicPair| p.0.value != kind)
}

/// The pairs that count: of two for one intrinsic, the later one.
pub open spec fn effective(pairs: Seq<IntrinsicPair>) -> Seq<IntrinsicPair>
    decreases pairs.len(),
{
    if pairs.len() == 0 {
        seq![]
    } else {
        without_kind(effective(pairs.drop_last()), pairs.last().0.value).push(pairs.last())
    }
}

/// The pairs of a format, followed by those of mapfiles.
pub open spec fn all_pairs(builtin: Seq<(IntrinsicInstrKind, u16)>, user: Seq<IntrinsicPair>) -> Seq<
    IntrinsicPair,
> {
    builtin.map_values(|p: (IntrinsicInstrKind, u16)| (sp_null(p.0), p.1)) + user
}

/// The entry of a pair.
pub open spec fn entry_of(abis: AbiTable, pair: IntrinsicPair) -> Result<
    IntrinsicEntry,
    IntrinsicAbiError,
> {
    match abis.get_spec(pair.1) {
        None => Err(
            IntrinsicAbiError { kind: AbiErrorKind::NoSignature, intrinsic: pair.0, abi: None },
        ),
        Some(abi) => match abi_props(pair.0.value, abi.value@) {
            Err(kind) => Err(
                IntrinsicAbiError { kind, intrinsic: pair.0, abi: Some(abi.span) },
            ),
            Ok(props) => Ok(IntrinsicEntry { kind: pair.0.value, opcode: pair.1, props }),
        },
    }
}

/// The entries of the first `n` pairs, and all errors.
pub open spec fn entries_of(abis: AbiTable, pairs: Seq<IntrinsicPair>, n: nat) -> (
    Seq<IntrinsicEntry>,
    Seq<IntrinsicAbiError>,
)
    decreases n,
{
    if n == 0 {
        (seq![], seq![])
    } else {
        let (entries, errors) = entries_of(abis, pairs, (n - 1) as nat);
        match entry_of(abis, pairs[n - 1]) {
            Ok(entry) => (entries.push(entry), errors),
            Err(e) => (entries, errors.push(e)),
        }
    }
}

/// The last entry of an intrinsic.
pub open spec fn entry_with_kind(
    entries: Seq<IntrinsicEntry>,
    n: nat,
    kind: IntrinsicInstrKind,
) -> Option<IntrinsicEntry>
    decreases n,
{
    if n == 0 {
        None
    } else if entries[n - 1].kind == kind {
        Some(entries[n - 1])
    } else {
        entry_with_kind(entries, (n - 1) as nat, kind)
    }
}

/// The last entry with an opcode.
pub open spec fn entry_with_opcode(
    entries: Seq<IntrinsicEntry>,
    n: nat,
    opcode: u16,
) -> Option<IntrinsicEntry>
    decreases n,
{
    if n == 0 {
        None
    } else if entries[n - 1].opcode == opcode {
        Some(entries[n - 1])
    } else {
        entry_with_opcode(entries, (n - 1) as nat, opcode)
    }
}

/// Drop the pairs of an intrinsic.
fn drop_kind(pairs: &Vec<IntrinsicPair>, kind: IntrinsicInstrKind) -> (r: Vec<IntrinsicPair>)
    ensures
        r@ == without_kind(pairs@, kind),
{
    let mut kept: Vec<IntrinsicPair> = Vec::new();
    let mut j: usize = 0;
    proof {
        reveal(Seq::filter);
        assert(pairs@.take(0) =~= seq![]);
    }
    while j < pairs.len()
        invariant
            j <= pairs@.len(),
            kept@ == without_kind(pairs@.take(j as int), kind),
        decreases pairs@.len() - j,
    {
        proof {
            reveal(Seq::filter);
            assert(pairs@.take(j + 1).drop_last() =~= pairs@.take(j as int));
        }
        if pairs[j].0.value != kind {
            kept.push(pairs[j]);
        }
        j = j + 1;
    }
    assert(pairs@.take(j as int) =~= pairs@);
    kept
}

fn effective_pairs(pairs: &Vec<IntrinsicPair>) -> (r: Vec<IntrinsicPair>)
    ensures
        r@ == effective(pairs@),
{
    let mut out: Vec<IntrinsicPair> = Vec::new();
    let mut i: usize = 0;
    assert(pairs@.take(0) =~= seq![]);
    while i < pairs.len()
        invariant
            i <= pairs@.len(),
            out@ == effective(pairs@.take(i as int)),
        decreases pairs@.len() - i,
    {
        proof {
            assert(pairs@.take(i + 1).drop_last() =~= pairs@.take(i as int));
        }
        let mut kept = drop_kind(&out, pairs[i].0.value);
        kept.push(pairs[i]);
        out = kept;
        i = i + 1;
    }
    assert(pairs@.take(i as int) =~= pairs@);
    out
}

impl IntrinsicInstrs {
    /// Build from the builtin intrinsics list of the format, and user mapfiles.
    ///
    /// This will perform verification of the signatures for each intrinsic.
    pub fn from_format_and_mapfiles(
        builtin: &Vec<(IntrinsicInstrKind, u16)>,
        user: &Vec<IntrinsicPair>,
        abis: &AbiTable,
    ) -> (r: Result<IntrinsicInstrs, Vec<IntrinsicAbiError>>)
        ensures
            ({
                let pairs = effective(all_pairs(builtin@, user@));
                let (entries, errors) = entries_of(*abis, pairs, pairs.len());
                match r {
                    Ok(x) => errors.len() == 0 && x.entries@ == entries,
                    Err(k) => errors.len() > 0 && k@ == errors,
                }
            }),
    {
        let mut all: Vec<IntrinsicPair> = Vec::new();
        let ghost named = builtin@.map_values(|p: (IntrinsicInstrKind, u16)| (sp_null(p.0), p.1));
        let mut i: usize = 0;
        while i < builtin.len()
            invariant
                i <= builtin@.len(),
                named == builtin@.map_values(
                    |p: (IntrinsicInstrKind, u16)| (sp_null(p.0), p.1),
                ),
                all@ == named.take(i as int),
            decreases builtin@.len() - i,
        {
            all.push((sp(builtin[i].0), builtin[i].1));
            i = i + 1;
            assert(all@ =~= named.take(i as int));
        }
        assert(all@ =~= named);
        let mut i: usize = 0;
        assert(named + user@.take(0) =~= named);
        while i < user.len()
            invariant
                i <= user@.len(),
                all@ == named + user@.take(i as int),
            decreases user@.len() - i,
        {
            all.push(user[i]);
            i = i + 1;
            assert(all@ =~= named + user@.take(i as int));
        }
        assert(all@ =~= all_pairs(builtin@, user@));
        let pairs = effective_pairs(&all);

        let mut entries: Vec<IntrinsicEntry> = Vec::new();
        let mut errors: Vec<IntrinsicAbiError> = Vec::new();
        let mut i: usize = 0;
        while i < pairs.len()
            invariant
                i <= pairs@.len(),
                (entries@, errors@) == entries_of(*abis, pairs@, i as nat),
            decreases pairs@.len() - i,
        {
            let (intrinsic, opcode) = pairs[i];
            match abis.get(opcode) {
                None => errors.push(
                    IntrinsicAbiError { kind: AbiErrorKind::NoSignature, intrinsic, abi: None },
                ),
                Some(abi) => match IntrinsicInstrAbiProps::from_abi(intrinsic.value, &abi.value) {
                    Ok(props) => entries.push(
                        IntrinsicEntry { kind: intrinsic.value, opcode, props },
                    ),
                    Err(kind) => errors.push(
                        IntrinsicAbiError { kind, intrinsic, abi: Some(abi.span) },
                    ),
                },
            }
            i = i + 1;
        }
        if errors.len() > 0 {
            Err(errors)
        } else {
            Ok(IntrinsicInstrs { entries })
        }
    }

    pub open spec fn with_kind_spec(self, kind: IntrinsicInstrKind) -> Option<IntrinsicEntry> {
        entry_with_kind(self.entries@, self.entries@.len(), kind)
    }

    pub open spec fn with_opcode_spec(self, opcode: u16) -> Option<IntrinsicEntry> {
        entry_with_opcode(self.entries@, self.entries@.len(), opcode)
    }

    fn find_kind(&self, kind: IntrinsicInstrKind) -> (r: Option<&IntrinsicEntry>)
        ensures
            match self.with_kind_spec(kind) {
                Some(entry) => r == Some(&entry),
                None => r is None,
            },
    {
        let mut n: usize = self.entries.len();
        while n > 0
            invariant
                n <= self.entries@.len(),
                entry_with_kind(self.entries@, n as nat, kind) == self.with_kind_spec(kind),
            decreases n,
        {
            if self.entries[n - 1].kind == kind {
                return Some(&self.entries[n - 1]);
            }
            n = n - 1;
        }
        None
    }

    /// The opcode of an intrinsic and the layout of its arguments.  The error, for a format that does
    /// not have the intrinsic, tells where in a script it is needed and what for.
    pub fn get_opcode_and_abi_props(
        &self,
        intrinsic: IntrinsicInstrKind,
        span: Span,
        descr: &str,
    ) -> (r: Result<(u16, &IntrinsicInstrAbiProps), UnsupportedFeature>)
        ensures
            match self.with_kind_spec(intrinsic) {
                Some(entry) => r matches Ok((opcode, props)) && opcode == entry.opcode && *props
                    == entry.props,
                None => r matches Err(e) && e.span == span && e.label@ == descr@
                    + " not supported in this game"@,
            },
    {
        match self.find_kind(intrinsic) {
            Some(entry) => Ok((entry.opcode, &entry.props)),
            None => {
                let mut label = String::from_str(descr);
                label.append(" not supported in this game");
                Err(UnsupportedFeature { span, label })
            },
        }
    }

    /// The opcode of an intrinsic, if it has one.
    pub fn get_opcode_opt(&self, intrinsic: IntrinsicInstrKind) -> (r: Option<u16>)
        ensures
            r == match self.with_kind_spec(intrinsic) {
                Some(entry) => Some(entry.opcode),
                None => None,
            },
    {
        match self.find_kind(intrinsic) {
            Some(entry) => Some(entry.opcode),
            None => None,
        }
    }

    /// The intrinsic that an opcode stands for, and the layout of its arguments.
    pub fn get_intrinsic_and_props(&self, opcode: u16) -> (r: Option<
        (IntrinsicInstrKind, &IntrinsicInstrAbiPropsKind),
    >)
        ensures
            match self.with_opcode_spec(opcode) {
                Some(entry) => r matches Some((kind, props)) && kind == entry.kind && *props
                    == entry.props.kind,
                None => r is None,
            },
    {
        let mut n: usize = self.entries.len();
        while n > 0
            invariant
                n <= self.entries@.len(),
                entry_with_opcode(self.entries@, n as nat, opcode) == self.with_opcode_spec(opcode),
            decreases n,
        {
            let entry = &self.entries[n - 1];
            if entry.opcode == opcode {
                return Some((entry.kind, &entry.props.kind));
            }
            n = n - 1;
        }
        None
    }
}

// =============================================================================

/// The opcode that the last pair of an intrinsic gives it.
pub open spec fn last_opcode(pairs: Seq<IntrinsicPair>, kind: IntrinsicInstrKind) -> Option<u16>
    decreases pairs.len(),
{
    if pairs.len() == 0 {
        None
    } else if pairs.last().0.value == kind {
        Some(pairs.last().1)
    } else {
        last_opcode(pairs.drop_last(), kind)
    }
}

proof fn lemma_opcode_without(
    pairs: Seq<IntrinsicPair>,
    gone: IntrinsicInstrKind,
    kind: IntrinsicInstrKind,
)
    requires
        kind != gone,
    ensures
        last_opcode(without_kind(pairs, gone), kind) == last_opcode(pairs, kind),
    decreases pairs.len(),
{
    reveal(Seq::filter);
    if pairs.len() > 0 {
        lemma_opcode_without(pairs.drop_last(), gone, kind);
        let kept = without_kind(pairs.drop_last(), gone);
        if pairs.last().0.value != gone {
            assert(without_kind(pairs, gone) =~= kept.push(pairs.last()));
            assert(kept.push(pairs.last()).drop_last() =~= kept);
        }
    }
}

proof fn lemma_effective_opcode(pairs: Seq<IntrinsicPair>, kind: IntrinsicInstrKind)
    ensures
        last_opcode(effective(pairs), kind) == last_opcode(pairs, kind),
    decreases pairs.len(),
{
    if pairs.len() > 0 {
        let before = effective(pairs.drop_last());
        let last = pairs.last();
        lemma_effective_opcode(pairs.drop_last(), kind);
        assert(effective(pairs).drop_last() =~= without_kind(before, last.0.value));
        if last.0.value != kind {
            lemma_opcode_without(before, last.0.value, kind);
        }
    }
}

proof fn lemma_entries_opcode(
    abis: AbiTable,
    pairs: Seq<IntrinsicPair>,
    n: nat,
    kind: IntrinsicInstrKind,
)
    requires
        n <= pairs.len(),
        entries_of(abis, pairs, n).1.len() == 0,
    ensures
        ({
            let entries = entries_of(abis, pairs, n).0;
            &&& entries.len() == n
            &&& match entry_with_kind(entries, n, kind) {
                Some(entry) => last_opcode(pairs.take(n as int), kind) == Some(entry.opcode),
                None => last_opcode(pairs.take(n as int), kind) is None,
            }
        }),
    decreases n,
{
    if n > 0 {
        lemma_entries_opcode(abis, pairs, (n - 1) as nat, kind);
        let before = entries_of(abis, pairs, (n - 1) as nat).0;
        let entries = entries_of(abis, pairs, n).0;
        assert(pairs.take(n as int).drop_last() =~= pairs.take(n - 1));
        lemma_entry_of_prefix(before, entries[n - 1], (n - 1) as nat, kind);
        assert(entries =~= before.push(entries[n - 1]));
    }
}

proof fn lemma_entry_of_prefix(
    entries: Seq<IntrinsicEntry>,
    more: IntrinsicEntry,
    n: nat,
    kind: IntrinsicInstrKind,
)
    requires
        n <= entries.len(),
    ensures
        entry_with_kind(entries.push(more), n, kind) == entry_with_kind(entries, n, kind),
    decreases n,
{
    if n > 0 {
        lemma_entry_of_prefix(entries, more, (n - 1) as nat, kind);
    }
}

proof fn lemma_last_of_sum(a: Seq<IntrinsicPair>, b: Seq<IntrinsicPair>, kind: IntrinsicInstrKind)
    ensures
        last_opcode(a + b, kind) == if last_opcode(b, kind) is Some {
            last_opcode(b, kind)
        } else {
            last_opcode(a, kind)
        },
    decreases b.len(),
{
    if b.len() > 0 {
        lemma_last_of_sum(a, b.drop_last(), kind);
        assert((a + b).drop_last() =~= a + b.drop_last());
    } else {
        assert(a + b =~= a);
    }
}

/// An intrinsic has the opcode that mapfiles give it last, or else the one that the format gives
/// it, and none if neither does.
pub proof fn law_mapfiles_override_format(
    builtin: Seq<(IntrinsicInstrKind, u16)>,
    user: Seq<IntrinsicPair>,
    abis: AbiTable,
    kind: IntrinsicInstrKind,
)
    ensures
        ({
            let pairs = effective(all_pairs(builtin, user));
            let (entries, errors) = entries_of(abis, pairs, pairs.len());
            let named = builtin.map_values(|p: (IntrinsicInstrKind, u16)| (sp_null(p.0), p.1));
            let expected = if last_opcode(user, kind) is Some {
                last_opcode(user, kind)
            } else {
                last_opcode(named, kind)
            };
            errors.len() == 0 ==> match entry_with_kind(entries, entries.len(), kind) {
                Some(entry) => expected == Some(entry.opcode),
                None => expected is None,
            }
        }),
{
    let named = builtin.map_values(|p: (IntrinsicInstrKind, u16)| (sp_null(p.0), p.1));
    let pairs = effective(all_pairs(builtin, user));
    lemma_effective_opcode(all_pairs(builtin, user), kind);
    lemma_last_of_sum(named, user, kind);
    if entries_of(abis, pairs, pairs.len()).1.len() == 0 {
        lemma_entries_opcode(abis, pairs, pairs.len(), kind);
        assert(pairs.take(pairs.len() as int) =~= pairs);
    }
}

/// No intrinsic has two pairs.
pub open spec fn distinct_kinds(pairs: Seq<IntrinsicPair>) -> bool {
    forall|i: int, j: int|
        0 <= i < j < pairs.len() ==> (#[trigger] pairs[i]).0.value != (
        #[trigger] pairs[j]).0.value
}

proof fn lemma_without_distinct(pairs: Seq<IntrinsicPair>, gone: IntrinsicInstrKind)
    requires
        distinct_kinds(pairs),
    ensures
        distinct_kinds(without_kind(pairs, gone)),
        forall|i: int|
            0 <= i < without_kind(pairs, gone).len() ==> (#[trigger] without_kind(
                pairs,
                gone,
            )[i]).0.value != gone && pairs.contains(without_kind(pairs, gone)[i]),
    decreases pairs.len(),
{
    reveal(Seq::filter);
    if pairs.len() > 0 {
        let init = pairs.drop_last();
        lemma_without_distinct(init, gone);
        let kept = without_kind(init, gone);
        let all = without_kind(pairs, gone);
        if pairs.last().0.value != gone {
            assert(all =~= kept.push(pairs.last()));
        }
        assert forall|i: int| 0 <= i < all.len() implies (#[trigger] all[i]).0.value != gone
            && pairs.contains(all[i]) by {
            if i < kept.len() {
                assert(all[i] == kept[i]);
                assert(init.contains(kept[i]));
                let k = choose|k: int| 0 <= k < init.len() && init[k] == kept[i];
                assert(pairs[k] == all[i]);
            } else {
                assert(pairs[pairs.len() - 1] == all[i]);
            }
        }
        assert forall|i: int, j: int| 0 <= i < j < all.len() implies (
        #[trigger] all[i]).0.value != (#[trigger] all[j]).0.value by {
            assert(all[i] == kept[i]);
            if j < kept.len() {
                assert(all[j] == kept[j]);
            } else {
                assert(init.contains(kept[i]));
                let k = choose|k: int| 0 <= k < init.len() && init[k] == kept[i];
                assert(pairs[k] == all[i]);
                assert(all[j] == pairs[pairs.len() - 1]);
            }
        }
    }
}

proof fn lemma_effective_distinct(pairs: Seq<IntrinsicPair>)
    ensures
        distinct_kinds(effective(pairs)),
    decreases pairs.len(),
{
    if pairs.len() > 0 {
        lemma_effective_distinct(pairs.drop_last());
        lemma_without_distinct(effective(pairs.drop_last()), pairs.last().0.value);
    }
}

proof fn lemma_entries_kinds(abis: AbiTable, pairs: Seq<IntrinsicPair>, n: nat)
    requires
        n <= pairs.len(),
        entries_of(abis, pairs, n).1.len() == 0,
    ensures
        entries_of(abis, pairs, n).0.len() == n,
        forall|i: int|
            0 <= i < n ==> (#[trigger] entries_of(abis, pairs, n).0[i]).kind == pairs[i].0.value,
    decreases n,
{
    if n > 0 {
        lemma_entries_kinds(abis, pairs, (n - 1) as nat);
    }
}

proof fn lemma_found_opcode(entries: Seq<IntrinsicEntry>, n: nat, opcode: u16)
    requires
        n <= entries.len(),
    ensures
        entry_with_opcode(entries, n, opcode) matches Some(e) ==> e.opcode == opcode && exists|
            i: int,
        |
            0 <= i < n && #[trigger] entries[i] == e,
    decreases n,
{
    if n > 0 {
        lemma_found_opcode(entries, (n - 1) as nat, opcode);
    }
}

proof fn lemma_found_kind(entries: Seq<IntrinsicEntry>, n: nat, i: int)
    requires
        0 <= i < n <= entries.len(),
        forall|a: int, b: int|
            0 <= a < b < entries.len() ==> (#[trigger] entries[a]).kind != (
            #[trigger] entries[b]).kind,
    ensures
        entry_with_kind(entries, n, entries[i].kind) == Some(entries[i]),
    decreases n,
{
    if i < n - 1 {
        lemma_found_kind(entries, (n - 1) as nat, i);
    }
}

/// The intrinsic that an opcode stands for has that opcode, and the layout that was looked up with
/// it.
pub proof fn law_intrinsic_of_opcode_has_the_opcode(
    builtin: Seq<(IntrinsicInstrKind, u16)>,
    user: Seq<IntrinsicPair>,
    abis: AbiTable,
    opcode: u16,
)
    ensures
        ({
            let pairs = effective(all_pairs(builtin, user));
            let (entries, errors) = entries_of(abis, pairs, pairs.len());
            errors.len() == 0 ==> match entry_with_opcode(entries, entries.len(), opcode) {
                Some(entry) => entry.opcode == opcode && entry_with_kind(
                    entries,
                    entries.len(),
                    entry.kind,
                ) == Some(entry),
                None => true,
            }
        }),
{
    let pairs = effective(all_pairs(builtin, user));
    let (entries, errors) = entries_of(abis, pairs, pairs.len());
    if errors.len() == 0 {
        lemma_effective_distinct(all_pairs(builtin, user));
        lemma_entries_kinds(abis, pairs, pairs.len());
        lemma_found_opcode(entries, entries.len(), opcode);
        if let Some(entry) = entry_with_opcode(entries, entries.len(), opcode) {
            let i = choose|i: int| 0 <= i < entries.len() && #[trigger] entries[i] == entry;
            lemma_found_kind(entries, entries.len(), i);
        }
    }
}

// =============================================================================
// Layouts

spec fn one_if(b: bool) -> nat {
    if b {
        1
    } else {
        0
    }
}

impl UnrepresentablePadding {
    /// How often padding claims an argument.
    pub open spec fn claims(self, k: int) -> nat {
        if self.index <= k < self.index + self.count {
            1
        } else {
            0
        }
    }
}

impl JumpArgOrder {
    /// How often a jump claims an argument.
    pub open spec fn claims(self, k: int) -> nat {
        let second = match self.kind {
            JumpArgOrderKind::Loc => false,
            JumpArgOrderKind::TimeLoc => true,
            JumpArgOrderKind::LocTime => true,
        };
        if k == self.index || (second && k == self.index + 1) {
            1
        } else {
            0
        }
    }
}

/// How often an operand at an index claims an argument.
pub open spec fn operand_claims(index: usize, k: int) -> nat {
    if k == index {
        1
    } else {
        0
    }
}

/// How often two operands claim an argument.
pub open spec fn operands_claim(args: (InputOperandType, InputOperandType), k: int) -> nat {
    operand_claims(args.0.index, k) + operand_claims(args.1.index, k)
}

impl IntrinsicInstrAbiPropsKind {
    /// How many pieces of a statement belong at an argument.
    pub open spec fn claims(self, k: int) -> nat {
        match self {
            IntrinsicInstrAbiPropsKind::Jmp { padding, jump } => padding.claims(k) + jump.claims(
                k,
            ),
            IntrinsicInstrAbiPropsKind::InterruptLabel { padding, label } => padding.claims(k)
                + operand_claims(label.index, k),
            IntrinsicInstrAbiPropsKind::AssignOp { dest, rhs } => operand_claims(dest.index, k)
                + operand_claims(rhs.index, k),
            IntrinsicInstrAbiPropsKind::Binop { dest, args } => operand_claims(dest.index, k)
                + operands_claim(args, k),
            IntrinsicInstrAbiPropsKind::Unop { dest, arg } => operand_claims(dest.index, k)
                + operand_claims(arg.index, k),
            IntrinsicInstrAbiPropsKind::CountJmp { arg, jump } => operand_claims(arg.index, k)
                + jump.claims(k),
            IntrinsicInstrAbiPropsKind::CondJmp { args, jump } => operands_claim(args, k)
                + jump.claims(k),
            IntrinsicInstrAbiPropsKind::CondJmp2A { args } => operands_claim(args, k),
            IntrinsicInstrAbiPropsKind::CondJmp2B { jump } => jump.claims(k),
        }
    }
}

/// How many of some arguments have an index.
spec fn left_at(args: ArgsV, k: int) -> nat
    decreases args.len(),
{
    if args.len() == 0 {
        0
    } else {
        left_at(args.drop_last(), k) + one_if(args.last().0 == k)
    }
}

proof fn lemma_left_remove(args: ArgsV, i: int, k: int)
    requires
        0 <= i < args.len(),
    ensures
        left_at(args, k) == left_at(args.remove(i), k) + one_if(args[i].0 == k),
    decreases args.len(),
{
    if i == args.len() - 1 {
        assert(args.remove(i) =~= args.drop_last());
    } else {
        lemma_left_remove(args.drop_last(), i, k);
        assert(args.remove(i).drop_last() =~= args.drop_last().remove(i));
        assert(args.remove(i).last() == args.last());
    }
}

proof fn lemma_first_with(args: ArgsV, encoding: ArgEncoding, n: nat)
    requires
        n <= args.len(),
    ensures
        first_with(args, encoding, n) matches Some(i) ==> 0 <= i < n,
    decreases n,
{
    if n > 0 {
        lemma_first_with(args, encoding, (n - 1) as nat);
    }
}

proof fn lemma_take_first(args: ArgsV, encoding: ArgEncoding, k: int)
    ensures
        left_at(args, k) == left_at(take_first(args, encoding).1, k) + match take_first(
            args,
            encoding,
        ).0 {
            Some(i) => one_if(i == k),
            None => 0,
        },
{
    lemma_first_with(args, encoding, args.len());
    if let Some(i) = first_with(args, encoding, args.len()) {
        lemma_left_remove(args, i, k);
    }
}

proof fn lemma_take_jump(args: ArgsV, k: int)
    ensures
        take_jump(args) matches Ok((jump, rest)) ==> left_at(args, k) == left_at(rest, k)
            + jump.claims(k),
{
    lemma_take_first(args, ArgEncoding::JumpOffset, k);
    lemma_take_first(take_first(args, ArgEncoding::JumpOffset).1, ArgEncoding::JumpTime, k);
}

proof fn lemma_take_out(args: ArgsV, ty: ScalarType, k: int)
    ensures
        take_out(args, ty) matches Ok((out, rest)) ==> left_at(args, k) == left_at(rest, k)
            + operand_claims(out.index, k),
{
    if args.len() > 0 {
        lemma_left_remove(args, 0, k);
    }
}

proof fn lemma_take_input(args: ArgsV, ty: ScalarType, k: int)
    ensures
        take_input(args, ty) matches Ok((x, rest)) ==> left_at(args, k) == left_at(rest, k)
            + operand_claims(x.index, k),
{
    if args.len() > 0 {
        lemma_left_remove(args, 0, k);
    }
}

proof fn lemma_take_inputs(args: ArgsV, ty: ScalarType, k: int)
    ensures
        take_inputs(args, ty) matches Ok((xs, rest)) ==> left_at(args, k) == left_at(rest, k)
            + operands_claim(xs, k),
{
    lemma_take_input(args, ty, k);
    if let Ok((_, rest)) = take_input(args, ty) {
        lemma_take_input(rest, ty, k);
    }
}

proof fn lemma_take_out_and_input(args: ArgsV, out_ty: ScalarType, ty: ScalarType, k: int)
    ensures
        take_out_and_input(args, out_ty, ty) matches Ok(((dest, arg), rest)) ==> left_at(args, k)
            == left_at(rest, k) + operand_claims(dest.index, k) + operand_claims(arg.index, k),
{
    lemma_take_out(args, out_ty, k);
    if let Ok((_, rest)) = take_out(args, out_ty) {
        lemma_take_input(rest, ty, k);
    }
}

/// All arguments have each index once.
proof fn lemma_left_enumerated(encodings: Seq<ArgEncoding>, n: nat, k: int)
    requires
        n <= encodings.len() <= usize::MAX,
    ensures
        left_at(enumerated(encodings).take(n as int), k) == one_if(0 <= k < n),
    decreases n,
{
    let args = enumerated(encodings);
    if n > 0 {
        lemma_left_enumerated(encodings, (n - 1) as nat, k);
        assert(args.take(n as int).drop_last() =~= args.take(n - 1));
        assert(args.take(n as int).last() == args[n - 1]);
    }
}

proof fn lemma_before_padding(args: ArgsV)
    ensures
        before_padding(args).len() <= args.len(),
        before_padding(args) == args.take(before_padding(args).len() as int),
    decreases args.len(),
{
    if args.len() > 0 && args.last().1 is Padding {
        lemma_before_padding(args.drop_last());
        let n = before_padding(args).len() as int;
        assert(args.drop_last().take(n) =~= args.take(n));
    } else {
        assert(args.take(args.len() as int) =~= args);
    }
}

proof fn lemma_left_padding(encodings: Seq<ArgEncoding>, k: int)
    requires
        encodings.len() <= usize::MAX,
    ensures
        ({
            let args = enumerated(encodings);
            left_at(args, k) == left_at(before_padding(args), k) + padding_of(args).claims(k)
        }),
{
    let args = enumerated(encodings);
    let n = before_padding(args).len();
    lemma_before_padding(args);
    lemma_left_enumerated(encodings, n, k);
    lemma_left_enumerated(encodings, encodings.len(), k);
    assert(args.take(encodings.len() as int) =~= args);
}

/// Every argument of an instruction belongs to exactly one piece of the statement, and no piece
/// belongs anywhere else.
pub proof fn law_layout_covers_arguments_once(
    intrinsic: IntrinsicInstrKind,
    encodings: Seq<ArgEncoding>,
    k: int,
)
    requires
        encodings.len() <= usize::MAX,
    ensures
        abi_props(intrinsic, encodings) matches Ok(props) ==> props.num_instr_args
            == encodings.len() && props.kind.claims(k) == if 0 <= k < props.num_instr_args {
            1nat
        } else {
            0nat
        },
{
    let args = enumerated(encodings);
    lemma_left_enumerated(encodings, encodings.len(), k);
    assert(args.take(encodings.len() as int) =~= args);
    lemma_left_padding(encodings, k);
    let front = before_padding(args);
    match intrinsic {
        IntrinsicInstrKind::Jmp => lemma_take_jump(front, k),
        IntrinsicInstrKind::InterruptLabel => lemma_take_input(front, ScalarType::Int, k),
        IntrinsicInstrKind::AssignOp(_, ty) => lemma_take_out_and_input(args, ty, ty, k),
        IntrinsicInstrKind::Unop(_, ty) => lemma_take_out_and_input(args, ty, ty, k),
        IntrinsicInstrKind::Binop(op, ty) => {
            let out_ty = binop_ty_from_arg_ty_spec(op, ty);
            lemma_take_out(args, out_ty, k);
            if let Ok((_, rest)) = take_out(args, out_ty) {
                lemma_take_inputs(rest, ty, k);
            }
        },
        IntrinsicInstrKind::CountJmp => {
            lemma_take_jump(args, k);
            if let Ok((_, rest)) = take_jump(args) {
                lemma_take_out(rest, ScalarType::Int, k);
            }
        },
        IntrinsicInstrKind::CondJmp(_, ty) => {
            lemma_take_jump(args, k);
            if let Ok((_, rest)) = take_jump(args) {
                lemma_take_inputs(rest, ty, k);
            }
        },
        IntrinsicInstrKind::CondJmp2A(ty) => lemma_take_inputs(args, ty, k),
        IntrinsicInstrKind::CondJmp2B(_) => lemma_take_jump(args, k),
    }
}

} // verus!
