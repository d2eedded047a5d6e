//! Where the arguments of instructions are, and which of them are variables.

use crate::binary_io::{take_u32, Warning};
use crate::instr::format::{mask_warnings, param_mask, take_args, zeros_below};
use crate::instr::InstrArgV;
use crate::std_file::layout::{lemma_skip, lemma_u32, u32_at};
use vstd::arithmetic::div_mod::{lemma_basic_div, lemma_div_denominator, lemma_div_non_zero};
use vstd::arithmetic::power2::{
    lemma2_to64, lemma_pow2_adds, lemma_pow2_pos, lemma_pow2_strictly_increases, lemma_pow2_unfold,
    pow2,
};
use vstd::prelude::*;

verus! {

/// Whether a bit of a mask is set.
pub open spec fn bit_is_set(mask: nat, i: nat) -> bool {
    (mask / pow2(i)) % 2 == 1
}

proof fn lemma_bit(mask: nat, i: nat)
    ensures
        bit_is_set(mask, 0) <==> mask % 2 == 1,
        bit_is_set(mask, i + 1) <==> bit_is_set(mask / 2, i),
{
    lemma2_to64();
    lemma_pow2_unfold(i + 1);
    lemma_pow2_pos(i);
    lemma_div_denominator(mask as int, 2, pow2(i) as int);
}

/// Arguments are read just if there are bytes for all of them.  Each is the number in the four bytes
/// at its place, and is a variable just if the bit of the same number is set in the mask.
pub proof fn law_args_layout(s: Seq<u8>, n: nat, mask: nat)
    ensures
        take_args(s, n, mask) is Ok <==> s.len() >= 4 * n,
        take_args(s, n, mask) matches Ok((args, rest)) ==> {
            &&& args.len() == n
            &&& rest == s.skip(4 * n as int)
            &&& forall|k: int|
                0 <= k < n ==> {
                    &&& (#[trigger] args[k]) is Raw
                    &&& args[k]->Raw_0.bits == u32_at(s, 4 * k)
                    &&& args[k]->Raw_0.is_var <==> bit_is_set(mask, k as nat)
                }
        },
    decreases n,
{
    if n == 0 {
        assert(s.skip(0) =~= s);
    } else {
        lemma_u32(s);
        if let Ok((bits, more)) = take_u32(s) {
            let m = (n - 1) as nat;
            law_args_layout(more, m, mask / 2);
            lemma_skip(s, 4);
            if let Ok((args, rest)) = take_args(s, n, mask) {
                let tail = take_args(more, m, mask / 2)->Ok_0.0;
                assert(more.skip(4 * m as int) == s.skip(4int + 4 * m));
                assert forall|k: int| 0 <= k < n implies {
                    &&& (#[trigger] args[k]) is Raw
                    &&& args[k]->Raw_0.bits == u32_at(s, 4 * k)
                    &&& args[k]->Raw_0.is_var <==> bit_is_set(mask, k as nat)
                } by {
                    if k == 0 {
                        lemma_bit(mask, 0);
                    } else {
                        lemma_bit(mask, (k - 1) as nat);
                        assert(args[k] == tail[k - 1]);
                        assert(u32_at(more, 4 * (k - 1)) == u32_at(s, 4 + 4 * (k - 1)));
                    }
                }
            }
        }
    }
}

/// In the mask of a list of arguments, a bit is set just if the argument of its number is there and
/// is a variable.
pub proof fn law_mask_has_the_bits_of_variables(args: Seq<InstrArgV>, i: nat)
    ensures
        bit_is_set(param_mask(args), i) <==> i < args.len() && match args[i as int] {
            InstrArgV::Raw(raw) => raw.is_var,
            InstrArgV::Local(_) => true,
            _ => false,
        },
    decreases args.len(),
{
    let mask = param_mask(args);
    if args.len() == 0 {
        lemma_pow2_pos(i);
        assert(0nat / pow2(i) == 0) by {
            lemma_basic_div(0, pow2(i) as int);
        }
    } else {
        let tail = args.skip(1);
        assert(mask / 2 == param_mask(tail));
        if i == 0 {
            lemma_bit(mask, 0);
        } else {
            lemma_bit(mask, (i - 1) as nat);
            law_mask_has_the_bits_of_variables(tail, (i - 1) as nat);
            assert(i < args.len() ==> tail[i - 1] == args[i as int]);
        }
    }
}

/// A mask is warned of just if a bit is set in it that belongs to none of the arguments, and the
/// warning tells the first such bit.
pub proof fn law_unused_bits_are_told(mask: nat, nargs: nat)
    requires
        mask <= 0xffff,
        nargs <= 0xffff,
    ensures
        (forall|i: nat| nargs <= i ==> !#[trigger] bit_is_set(mask, i)) ==> mask_warnings(
            mask,
            nargs,
        ).len() == 0,
        forall|i: nat| #[trigger]
            bit_is_set(mask, i) && nargs <= i && (forall|j: nat|
                nargs <= j < i ==> !#[trigger] bit_is_set(mask, j)) ==> mask_warnings(mask, nargs)
                == seq![
                Warning::UnusedMaskBits { arg: (i + 1) as usize, nargs: nargs as usize },
            ],
{
    lemma_pow2_pos(nargs);
    let high = mask / pow2(nargs);
    if mask < pow2(nargs) {
        assert forall|i: nat| nargs <= i implies !#[trigger] bit_is_set(mask, i) by {
            if nargs < i {
                lemma_pow2_strictly_increases(nargs, i);
            }
            lemma_basic_div(mask as int, pow2(i) as int);
        }
    } else {
        assert(high > 0) by {
            lemma_div_non_zero(mask as int, pow2(nargs) as int);
        }
        let z = zeros_below(high);
        lemma_lowest_bit(high);
        assert forall|i: nat| bit_is_set(high, i) == #[trigger] bit_is_set(mask, nargs + i) by {
            lemma_pow2_pos(i);
            lemma_pow2_adds(nargs, i);
            lemma_div_denominator(mask as int, pow2(nargs) as int, pow2(i) as int);
        }
        assert(bit_is_set(mask, nargs + z));
        assert forall|i: nat| #[trigger]
            bit_is_set(mask, i) && nargs <= i && (forall|j: nat|
                nargs <= j < i ==> !#[trigger] bit_is_set(mask, j)) implies i == nargs + z by {
            let k = (i - nargs) as nat;
            assert(bit_is_set(mask, nargs + k) == bit_is_set(high, k));
        }
    }
}

proof fn lemma_lowest_bit(mask: nat)
    requires
        mask > 0,
    ensures
        bit_is_set(mask, zeros_below(mask)),
        forall|j: nat| j < zeros_below(mask) ==> !#[trigger] bit_is_set(mask, j),
    decreases mask,
{
    lemma_bit(mask, 0);
    if mask % 2 == 0 {
        lemma_lowest_bit(mask / 2);
        lemma_bit(mask, zeros_below(mask / 2));
        assert forall|j: nat| j < zeros_below(mask) implies !#[trigger] bit_is_set(mask, j) by {
            if j > 0 {
                lemma_bit(mask, (j - 1) as nat);
            }
        }
    }
}

} // verus!
