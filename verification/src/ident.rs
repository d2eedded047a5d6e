//! Identifiers, and the supply of fresh ones.

use crate::text::{decimal_spec, decimal_value, lemma_decimal_value, lemma_numbered_name_injective, numbered_name};
use crate::resolve::ResId;
use vstd::prelude::*;
use vstd::string::*;

verus! {

/// A name in a script.
#[derive(Debug, PartialEq, Eq, Hash)]
pub struct Ident {
    pub text: String,
}

impl View for Ident {
    type V = Seq<char>;

    open spec fn view(&self) -> Seq<char> {
        self.text@
    }
}

impl Clone for Ident {
    fn clone(&self) -> (r: Self)
        ensures
            r == *self,
    {
        Ident { text: self.text.clone() }
    }
}

impl Ident {
    /// The identifier with a given text.
    pub fn new(text: &str) -> (r: Ident)
        ensures
            r@ == text@,
    {
        Ident { text: String::from_str(text) }
    }

    /// Tell whether two identifiers are the same name.
    pub fn same(&self, other: &Ident) -> (r: bool)
        ensures
            r == (self@ == other@),
    {
        self.text == other.text
    }

    /// Tell whether the identifier has a given text.
    pub fn is(&self, text: &str) -> (r: bool)
        ensures
            r == (self@ == text@),
    {
        self.text == text.to_owned()
    }

    /// The name of an instruction that has no alias, such as `ins_23`.
    pub fn new_ins(opcode: u16) -> (r: Ident)
        ensures
            r@ == ins_name(opcode),
    {
        Ident { text: numbered_name("ins_", opcode as u64) }
    }

    /// The opcode of a plain instruction name: `ins_` followed by decimal digits that
    /// stand for a number of 16 bits.
    pub fn as_ins(&self) -> (r: Option<u16>)
        ensures
            r == as_ins_spec(self@),
    {
        let text: &str = self.text.as_str();
        let n: usize = text.unicode_len();
        proof {
            reveal_strlit("ins_");
        }
        if n <= 4 {
            return None;
        }
        if text.get_char(0) != 'i' || text.get_char(1) != 'n' || text.get_char(2) != 's'
            || text.get_char(3) != '_' {
            assert(self@.take(4)[0] != 'i' || self@.take(4)[1] != 'n' || self@.take(4)[2] != 's'
                || self@.take(4)[3] != '_');
            return None;
        }
        assert(self@.take(4) =~= "ins_"@);
        let mut value: u32 = 0;
        let mut too_large: bool = false;
        let mut i: usize = 4;
        while i < n
            invariant
                4 <= i <= n,
                n == self@.len(),
                text@ == self@,
                self@.take(4) == "ins_"@,
                all_digits(self@.subrange(4, i as int)),
                !too_large ==> value == decimal_value(self@.subrange(4, i as int)) && value
                    <= 65535,
                too_large ==> decimal_value(self@.subrange(4, i as int)) > 65535,
            decreases n - i,
        {
            let c: char = text.get_char(i);
            let ghost before = self@.subrange(4, i as int);
            let ghost after = self@.subrange(4, i + 1);
            assert(after.drop_last() =~= before);
            assert(after.last() == c);
            if c < '0' || c > '9' {
                assert(self@.skip(4)[i - 4] == c);
                return None;
            }
            assert(all_digits(after)) by {
                assert forall|k: int| 0 <= k < after.len() implies '0' <= #[trigger] after[k]
                    <= '9' by {
                    if k < before.len() {
                        assert(before[k] == after[k]);
                    }
                }
            }
            if !too_large {
                value = value * 10 + (c as u32 - '0' as u32);
                if value > 65535 {
                    too_large = true;
                }
            }
            i = i + 1;
        }
        assert(self@.subrange(4, n as int) =~= self@.skip(4));
        if too_large {
            None
        } else {
            Some(value as u16)
        }
    }
}

/// Whether a text holds decimal digits only.
pub open spec fn all_digits(s: Seq<char>) -> bool {
    forall|i: int| 0 <= i < s.len() ==> '0' <= #[trigger] s[i] <= '9'
}

/// The opcode that a plain instruction name stands for.
pub open spec fn as_ins_spec(s: Seq<char>) -> Option<u16> {
    if s.len() > 4 && s.take(4) == "ins_"@ && all_digits(s.skip(4)) && decimal_value(s.skip(4))
        <= 65535 {
        Some(decimal_value(s.skip(4)) as u16)
    } else {
        None
    }
}

/// The plain name of an instruction stands for its opcode.
pub proof fn law_ins_name_round_trip(opcode: u16)
    ensures
        as_ins_spec(ins_name(opcode)) == Some(opcode),
{
    reveal_strlit("ins_");
    lemma_decimal_value(opcode as nat);
    assert(ins_name(opcode).take(4) =~= "ins_"@);
    assert(ins_name(opcode).skip(4) =~= decimal_spec(opcode as nat));
}

/// The name of an instruction that has no alias.
pub open spec fn ins_name(opcode: u16) -> Seq<char> {
    "ins_"@ + decimal_spec(opcode as nat)
}

/// Two opcodes have the same plain name only if they are equal.
pub proof fn law_ins_names_are_distinct(a: u16, b: u16)
    requires
        ins_name(a) == ins_name(b),
    ensures
        a == b,
{
    lemma_numbered_name_injective("ins_"@, a as nat, b as nat);
}

/// Source of identifiers that nothing else in a script can be called by.
#[derive(Debug)]
pub struct GensymContext {
    pub next: u64,
}

impl GensymContext {
    pub fn new() -> (r: Self)
        ensures
            r.next == 0,
    {
        GensymContext { next: 0 }
    }

    /// Make an identifier out of a prefix and a number that was not used before.
    pub fn gensym(&mut self, prefix: &str) -> (r: Ident)
        requires
            old(self).next < u64::MAX,
        ensures
            r@ == prefix@ + decimal_spec(old(self).next as nat),
            final(self).next == old(self).next + 1,
    {
        let n: u64 = self.next;
        self.next = n + 1;
        Ident { text: numbered_name(prefix, n) }
    }
}

/// Identifiers that one source made at different times, from one prefix, are different.
pub proof fn law_gensyms_are_distinct(prefix: Seq<char>, a: nat, b: nat)
    requires
        a != b,
    ensures
        prefix + decimal_spec(a) != prefix + decimal_spec(b),
{
    if prefix + decimal_spec(a) == prefix + decimal_spec(b) {
        lemma_numbered_name_injective(prefix, a, b);
    }
}

/// A name that can be resolved to a definition.
#[derive(Debug)]
pub struct ResIdent {
    pub ident: Ident,
    /// The place of this mention among all mentions of names, once it has one.
    pub res: Option<ResId>,
}

impl View for ResIdent {
    type V = Seq<char>;

    open spec fn view(&self) -> Seq<char> {
        self.ident@
    }
}

impl Clone for ResIdent {
    fn clone(&self) -> (r: Self)
        ensures
            r == *self,
    {
        ResIdent { ident: self.ident.clone(), res: self.res }
    }
}

impl ResIdent {
    pub fn new(ident: Ident, res: ResId) -> (r: ResIdent)
        ensures
            r == (ResIdent { ident, res: Some(res) }),
    {
        ResIdent { ident, res: Some(res) }
    }

    /// The place of a mention that has one.
    pub fn expect_res(&self) -> (r: ResId)
        requires
            self.res is Some,
        ensures
            Some(r) == self.res,
    {
        self.res.unwrap()
    }
}

} // verus!
