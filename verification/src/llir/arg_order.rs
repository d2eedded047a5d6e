//! Which argument of an instruction is which piece of a statement.

use crate::ast::BinOpKind;
use crate::llir::intrinsic::{
    abi_props, before_padding, enumerated, first_with, padding_of, take_first, take_input,
    take_inputs, take_jump, take_out, ArgsV, InputOperandType, IntrinsicInstrAbiPropsKind,
    IntrinsicInstrKind, JumpArgOrder, JumpArgOrderKind, OutOperandType, OutOperandTypeKind,
    UnrepresentablePadding,
};
use crate::llir::ArgEncoding;
use crate::value::ScalarType;
use vstd::prelude::*;

verus! {

/// Whether there is an argument of an encoding.
pub open spec fn is_encoded(enc: Seq<ArgEncoding>, i: int, e: ArgEncoding) -> bool {
    0 <= i < enc.len() && enc[i] == e
}

/// Whether the offset and the time of a jump are where a signature has them.
pub open spec fn jump_fits(enc: Seq<ArgEncoding>, jump: JumpArgOrder) -> bool {
    match jump.kind {
        JumpArgOrderKind::Loc => {
            &&& is_encoded(enc, jump.index as int, ArgEncoding::JumpOffset)
            &&& forall|i: int| !#[trigger] is_encoded(enc, i, ArgEncoding::JumpTime)
        },
        JumpArgOrderKind::LocTime => {
            &&& is_encoded(enc, jump.index as int, ArgEncoding::JumpOffset)
            &&& is_encoded(enc, jump.index + 1, ArgEncoding::JumpTime)
        },
        JumpArgOrderKind::TimeLoc => {
            &&& is_encoded(enc, jump.index as int, ArgEncoding::JumpTime)
            &&& is_encoded(enc, jump.index + 1, ArgEncoding::JumpOffset)
        },
    }
}

/// Whether an argument can be an operand of a type.
pub open spec fn input_fits(enc: Seq<ArgEncoding>, x: InputOperandType, ty: ScalarType) -> bool {
    match ty {
        ScalarType::Int => is_encoded(enc, x.index as int, ArgEncoding::Dword),
        ScalarType::Float => is_encoded(enc, x.index as int, ArgEncoding::Float),
        ScalarType::String => false,
    }
}

/// Whether an argument can be the register that receives a result of a type.
pub open spec fn out_fits(enc: Seq<ArgEncoding>, x: OutOperandType, ty: ScalarType) -> bool {
    match (ty, x.kind) {
        (ScalarType::Int, OutOperandTypeKind::Natural) => is_encoded(
            enc,
            x.index as int,
            ArgEncoding::Dword,
        ),
        (ScalarType::Float, OutOperandTypeKind::Natural) => is_encoded(
            enc,
            x.index as int,
            ArgEncoding::Float,
        ),
        (ScalarType::Float, OutOperandTypeKind::FloatAsInt) => is_encoded(
            enc,
            x.index as int,
            ArgEncoding::Dword,
        ),
        _ => false,
    }
}

/// Whether padding reaches from an argument to the end.
pub open spec fn padding_fits(enc: Seq<ArgEncoding>, p: UnrepresentablePadding) -> bool {
    &&& p.index + p.count == enc.len()
    &&& forall|i: int| p.index <= i < enc.len() ==> (#[trigger] enc[i]) is Padding
}

/// Whether two operands of a type come in their order.
pub open spec fn inputs_fit(
    enc: Seq<ArgEncoding>,
    xs: (InputOperandType, InputOperandType),
    ty: ScalarType,
) -> bool {
    &&& input_fits(enc, xs.0, ty)
    &&& input_fits(enc, xs.1, ty)
    &&& xs.0.index < xs.1.index
}

/// The type of the result of an operator.
pub open spec fn result_of(op: BinOpKind, ty: ScalarType) -> ScalarType {
    match op {
        BinOpKind::Add | BinOpKind::Sub | BinOpKind::Mul | BinOpKind::Div | BinOpKind::Rem => ty,
        _ => ScalarType::Int,
    }
}

/// Whether the pieces of a statement are where a signature has them, each as an argument of its type
/// and in the order in which the statement has them: first the result, behind it the operands.
pub open spec fn fits(
    kind: IntrinsicInstrKind,
    enc: Seq<ArgEncoding>,
    props: IntrinsicInstrAbiPropsKind,
) -> bool {
    match (kind, props) {
        (IntrinsicInstrKind::Jmp, IntrinsicInstrAbiPropsKind::Jmp { padding, jump }) => {
            padding_fits(enc, padding) && jump_fits(enc, jump)
        },
        (
            IntrinsicInstrKind::InterruptLabel,
            IntrinsicInstrAbiPropsKind::InterruptLabel { padding, label },
        ) => padding_fits(enc, padding) && is_encoded(enc, label.index as int, ArgEncoding::Dword),
        (
            IntrinsicInstrKind::AssignOp(_, ty),
            IntrinsicInstrAbiPropsKind::AssignOp { dest, rhs },
        ) => out_fits(enc, dest, ty) && input_fits(enc, rhs, ty) && dest.index < rhs.index,
        (IntrinsicInstrKind::Binop(op, ty), IntrinsicInstrAbiPropsKind::Binop { dest, args }) => {
            &&& out_fits(enc, dest, result_of(op, ty))
            &&& inputs_fit(enc, args, ty)
            &&& dest.index < args.0.index
        },
        (IntrinsicInstrKind::Unop(_, ty), IntrinsicInstrAbiPropsKind::Unop { dest, arg }) => {
            out_fits(enc, dest, ty) && input_fits(enc, arg, ty) && dest.index < arg.index
        },
        (IntrinsicInstrKind::CountJmp, IntrinsicInstrAbiPropsKind::CountJmp { arg, jump }) => {
            out_fits(enc, arg, ScalarType::Int) && jump_fits(enc, jump)
        },
        (IntrinsicInstrKind::CondJmp(_, ty), IntrinsicInstrAbiPropsKind::CondJmp { args, jump }) => {
            inputs_fit(enc, args, ty) && jump_fits(enc, jump)
        },
        (IntrinsicInstrKind::CondJmp2A(ty), IntrinsicInstrAbiPropsKind::CondJmp2A { args }) => {
            inputs_fit(enc, args, ty)
        },
        (IntrinsicInstrKind::CondJmp2B(_), IntrinsicInstrAbiPropsKind::CondJmp2B { jump }) => {
            jump_fits(enc, jump)
        },
        _ => false,
    }
}

// =============================================================================

/// Whether arguments are some of those of an instruction, in their order.
spec fn among(args: ArgsV, enc: Seq<ArgEncoding>) -> bool {
    &&& forall|i: int|
        0 <= i < args.len() ==> (#[trigger] args[i]).0 < enc.len() && args[i].1
            == enc[args[i].0 as int]
    &&& forall|i: int, j: int|
        0 <= i < j < args.len() ==> (#[trigger] args[i]).0 < (#[trigger] args[j]).0
}

proof fn lemma_removed(args: ArgsV, enc: Seq<ArgEncoding>, k: int)
    requires
        among(args, enc),
        0 <= k < args.len(),
    ensures
        among(args.remove(k), enc),
{
    let rest = args.remove(k);
    assert forall|i: int, j: int| 0 <= i < j < rest.len() implies (#[trigger] rest[i]).0 < (
    #[trigger] rest[j]).0 by {
        let a = if i < k {
            i
        } else {
            i + 1
        };
        let b = if j < k {
            j
        } else {
            j + 1
        };
        assert(rest[i] == args[a]);
        assert(rest[j] == args[b]);
    }
    assert forall|i: int| 0 <= i < rest.len() implies (#[trigger] rest[i]).0 < enc.len()
        && rest[i].1 == enc[rest[i].0 as int] by {
        let a = if i < k {
            i
        } else {
            i + 1
        };
        assert(rest[i] == args[a]);
    }
}

proof fn lemma_first(args: ArgsV, e: ArgEncoding, n: nat)
    requires
        n <= args.len(),
    ensures
        first_with(args, e, n) matches Some(i) ==> 0 <= i < n && args[i].1 == e,
        first_with(args, e, n) is None ==> forall|i: int|
            0 <= i < n ==> (#[trigger] args[i]).1 != e,
    decreases n,
{
    if n > 0 {
        lemma_first(args, e, (n - 1) as nat);
    }
}

/// Every argument of an encoding is among these.
spec fn has_all(args: ArgsV, enc: Seq<ArgEncoding>, e: ArgEncoding) -> bool {
    forall|i: int| #[trigger]
        is_encoded(enc, i, e) ==> exists|j: int| 0 <= j < args.len() && (#[trigger] args[j]).0 == i
}

proof fn lemma_jump(args: ArgsV, enc: Seq<ArgEncoding>)
    requires
        among(args, enc),
        has_all(args, enc, ArgEncoding::JumpTime),
    ensures
        take_jump(args) matches Ok((jump, rest)) ==> jump_fits(enc, jump) && among(rest, enc),
{
    let (offset, rest) = take_first(args, ArgEncoding::JumpOffset);
    lemma_first(args, ArgEncoding::JumpOffset, args.len());
    if let Some(k) = first_with(args, ArgEncoding::JumpOffset, args.len()) {
        lemma_removed(args, enc, k);
    }
    lemma_first(rest, ArgEncoding::JumpTime, rest.len());
    if let Some(k) = first_with(rest, ArgEncoding::JumpTime, rest.len()) {
        lemma_removed(rest, enc, k);
    } else if let Some(k) = first_with(args, ArgEncoding::JumpOffset, args.len()) {
        assert forall|i: int| !#[trigger] is_encoded(enc, i, ArgEncoding::JumpTime) by {
            if is_encoded(enc, i, ArgEncoding::JumpTime) {
                let j = choose|j: int| 0 <= j < args.len() && (#[trigger] args[j]).0 == i;
                assert(args[j].1 == enc[i]);
                let m = if j < k {
                    j
                } else {
                    j - 1
                };
                assert(rest[m] == args[j]);
            }
        }
    }
}

proof fn lemma_input(args: ArgsV, enc: Seq<ArgEncoding>, ty: ScalarType)
    requires
        among(args, enc),
    ensures
        take_input(args, ty) matches Ok((x, rest)) ==> {
            &&& input_fits(enc, x, ty)
            &&& among(rest, enc)
            &&& forall|i: int| 0 <= i < rest.len() ==> x.index < (#[trigger] rest[i]).0
        },
{
    if args.len() > 0 {
        lemma_removed(args, enc, 0);
        let rest = args.remove(0);
        assert forall|i: int| 0 <= i < rest.len() implies args[0].0 < (#[trigger] rest[i]).0 by {
            assert(rest[i] == args[i + 1]);
        }
    }
}

proof fn lemma_inputs(args: ArgsV, enc: Seq<ArgEncoding>, ty: ScalarType)
    requires
        among(args, enc),
    ensures
        take_inputs(args, ty) matches Ok((xs, rest)) ==> inputs_fit(enc, xs, ty) && xs.0.index
            == args[0].0 && args.len() > 0,
{
    lemma_input(args, enc, ty);
    if let Ok((_, rest)) = take_input(args, ty) {
        lemma_input(rest, enc, ty);
    }
}

proof fn lemma_out(args: ArgsV, enc: Seq<ArgEncoding>, ty: ScalarType)
    requires
        among(args, enc),
    ensures
        take_out(args, ty) matches Ok((x, rest)) ==> {
            &&& out_fits(enc, x, ty)
            &&& among(rest, enc)
            &&& forall|i: int| 0 <= i < rest.len() ==> x.index < (#[trigger] rest[i]).0
        },
{
    if args.len() > 0 {
        lemma_removed(args, enc, 0);
        let rest = args.remove(0);
        assert forall|i: int| 0 <= i < rest.len() implies args[0].0 < (#[trigger] rest[i]).0 by {
            assert(rest[i] == args[i + 1]);
        }
    }
}

proof fn lemma_padding(args: ArgsV)
    ensures
        ({
            let n = before_padding(args).len();
            &&& n <= args.len()
            &&& before_padding(args) == args.take(n as int)
            &&& forall|i: int| n <= i < args.len() ==> (#[trigger] args[i]).1 is Padding
        }),
    decreases args.len(),
{
    if args.len() > 0 && args.last().1 is Padding {
        let head = args.drop_last();
        lemma_padding(head);
        let n = before_padding(args).len() as int;
        assert(head.take(n) =~= args.take(n));
        assert forall|i: int| n <= i < args.len() implies (#[trigger] args[i]).1 is Padding by {
            if i < head.len() {
                assert(head[i] == args[i]);
            }
        }
    } else {
        assert(args.take(args.len() as int) =~= args);
    }
}

/// In an instruction that stands for an operation, each piece of the statement is an argument that
/// the signature has for it: the offset and the time of a jump where they are marked, the result
/// before the operands, and the operands in their order.
#[verifier::rlimit(40)]
pub proof fn law_arguments_are_in_order(kind: IntrinsicInstrKind, enc: Seq<ArgEncoding>)
    requires
        enc.len() <= usize::MAX,
    ensures
        abi_props(kind, enc) matches Ok(props) ==> props.num_instr_args == enc.len() && fits(
            kind,
            enc,
            props.kind,
        ),
{
    let args = enumerated(enc);
    assert(among(args, enc));
    assert forall|i: int| #[trigger]
        is_encoded(enc, i, ArgEncoding::JumpTime) implies exists|j: int|
        0 <= j < args.len() && (#[trigger] args[j]).0 == i by {
        assert(args[i].0 == i);
    }
    lemma_padding(args);
    let front = before_padding(args);
    assert(among(front, enc)) by {
        assert forall|i: int, j: int| 0 <= i < j < front.len() implies (#[trigger] front[i]).0 < (
        #[trigger] front[j]).0 by {
            assert(front[i] == args[i]);
            assert(front[j] == args[j]);
        }
        assert forall|i: int| 0 <= i < front.len() implies (#[trigger] front[i]).0 < enc.len()
            && front[i].1 == enc[front[i].0 as int] by {
            assert(front[i] == args[i]);
        }
    }
    assert(has_all(front, enc, ArgEncoding::JumpTime)) by {
        assert forall|i: int| #[trigger]
            is_encoded(enc, i, ArgEncoding::JumpTime) implies exists|j: int|
            0 <= j < front.len() && (#[trigger] front[j]).0 == i by {
            assert(args[i] == (i as usize, enc[i]));
            assert(front[i].0 == i);
        }
    }
    assert(padding_fits(enc, padding_of(args))) by {
        assert forall|i: int| front.len() <= i < enc.len() implies (#[trigger] enc[i]) is Padding by {
            assert(args[i].1 == enc[i]);
        }
    }
    match kind {
        IntrinsicInstrKind::Jmp => lemma_jump(front, enc),
        IntrinsicInstrKind::InterruptLabel => lemma_input(front, enc, ScalarType::Int),
        IntrinsicInstrKind::AssignOp(_, ty) => {
            lemma_out(args, enc, ty);
            if let Ok((_, rest)) = take_out(args, ty) {
                lemma_input(rest, enc, ty);
            }
        },
        IntrinsicInstrKind::Unop(_, ty) => {
            lemma_out(args, enc, ty);
            if let Ok((_, rest)) = take_out(args, ty) {
                lemma_input(rest, enc, ty);
            }
        },
        IntrinsicInstrKind::Binop(op, ty) => {
            lemma_out(args, enc, result_of(op, ty));
            if let Ok((_, rest)) = take_out(args, result_of(op, ty)) {
                lemma_inputs(rest, enc, ty);
            }
        },
        IntrinsicInstrKind::CountJmp => {
            lemma_jump(args, enc);
            if let Ok((_, rest)) = take_jump(args) {
                lemma_out(rest, enc, ScalarType::Int);
            }
        },
        IntrinsicInstrKind::CondJmp(_, ty) => {
            lemma_jump(args, enc);
            if let Ok((_, rest)) = take_jump(args) {
                lemma_inputs(rest, enc, ty);
            }
        },
        IntrinsicInstrKind::CondJmp2A(ty) => lemma_inputs(args, enc, ty),
        IntrinsicInstrKind::CondJmp2B(_) => lemma_jump(args, enc),
    }
}

} // verus!
