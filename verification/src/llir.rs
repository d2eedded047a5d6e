//! How the arguments of instructions are laid out.

pub mod arg_order;
pub mod intrinsic;

use crate::pos::Sp;
use vstd::prelude::*;
use vstd::string::*;

verus! {

/// How an argument of an instruction is encoded.
#[derive(Debug, Copy, Clone, PartialEq, Eq, PartialOrd, Ord, Hash, Structural)]
pub enum ArgEncoding {
    /// A plain integer: `S`.
    Dword,
    /// An integer that is zero: `_`.
    Padding,
    /// An integer that is written in hexadecimal: `C`.
    Color,
    /// A single-precision number: `f`.
    Float,
    /// The offset of a label: `o`.
    JumpOffset,
    /// The time of a label: `t`.
    JumpTime,
}

impl ArgEncoding {
    pub open spec fn descr_spec(self) -> Seq<char> {
        match self {
            ArgEncoding::Dword => "dword integer"@,
            ArgEncoding::Padding => "padding"@,
            ArgEncoding::Color => "hex integer"@,
            ArgEncoding::Float => "float"@,
            ArgEncoding::JumpOffset => "jump offset"@,
            ArgEncoding::JumpTime => "jump time"@,
        }
    }

    /// The encoding in words.
    pub fn descr(self) -> (r: &'static str)
        ensures
            r@ == self.descr_spec(),
    {
        match self {
            ArgEncoding::Dword => "dword integer",
            ArgEncoding::Padding => "padding",
            ArgEncoding::Color => "hex integer",
            ArgEncoding::Float => "float",
            ArgEncoding::JumpOffset => "jump offset",
            ArgEncoding::JumpTime => "jump time",
        }
    }

    pub open spec fn from_char_spec(c: char) -> Option<ArgEncoding> {
        match c {
            'S' => Some(ArgEncoding::Dword),
            '_' => Some(ArgEncoding::Padding),
            'C' => Some(ArgEncoding::Color),
            'f' => Some(ArgEncoding::Float),
            'o' => Some(ArgEncoding::JumpOffset),
            't' => Some(ArgEncoding::JumpTime),
            _ => None,
        }
    }

    /// The encoding that a letter of a mapfile stands for.
    pub fn from_char(c: char) -> (r: Option<ArgEncoding>)
        ensures
            r == ArgEncoding::from_char_spec(c),
    {
        match c {
            'S' => Some(ArgEncoding::Dword),
            '_' => Some(ArgEncoding::Padding),
            'C' => Some(ArgEncoding::Color),
            'f' => Some(ArgEncoding::Float),
            'o' => Some(ArgEncoding::JumpOffset),
            't' => Some(ArgEncoding::JumpTime),
            _ => None,
        }
    }
}

/// The encodings of all arguments of an instruction.
#[derive(Debug)]
pub struct InstrAbi {
    pub encodings: Vec<ArgEncoding>,
}

impl View for InstrAbi {
    type V = Seq<ArgEncoding>;

    open spec fn view(&self) -> Seq<ArgEncoding> {
        self.encodings@
    }
}

/// What is wrong with the signature of an instruction.
#[derive(Debug, Copy, Clone, PartialEq, Eq, Structural)]
pub enum AbiParseError {
    /// A letter that stands for no encoding.
    BadChar { c: char },
    /// "signature has multiple 'o' args"
    MultipleOffsets,
    /// "signature has multiple 't' args"
    MultipleTimes,
    /// "signature has a 't' arg without an 'o' arg"
    TimeWithoutOffset,
}

/// The number of arguments with a given encoding.
pub open spec fn count_of(s: Seq<ArgEncoding>, e: ArgEncoding) -> nat
    decreases s.len(),
{
    if s.len() == 0 {
        0
    } else {
        count_of(s.drop_last(), e) + if s.last() == e {
            1nat
        } else {
            0nat
        }
    }
}

/// The encodings that the first `n` letters stand for.
pub open spec fn letters(s: Seq<char>, n: nat) -> Result<Seq<ArgEncoding>, AbiParseError>
    decreases n,
{
    if n == 0 {
        Ok(seq![])
    } else {
        match letters(s, (n - 1) as nat) {
            Err(e) => Err(e),
            Ok(done) => match ArgEncoding::from_char_spec(s[n - 1]) {
                Some(e) => Ok(done.push(e)),
                None => Err(AbiParseError::BadChar { c: s[n - 1] }),
            },
        }
    }
}

/// Whether the arguments of a jump are such as an instruction can have.
pub open spec fn check_jump_args(s: Seq<ArgEncoding>) -> Result<(), AbiParseError> {
    if count_of(s, ArgEncoding::JumpOffset) > 1 {
        Err(AbiParseError::MultipleOffsets)
    } else if count_of(s, ArgEncoding::JumpTime) > 1 {
        Err(AbiParseError::MultipleTimes)
    } else if count_of(s, ArgEncoding::JumpTime) == 1 && count_of(s, ArgEncoding::JumpOffset)
        == 0 {
        Err(AbiParseError::TimeWithoutOffset)
    } else {
        Ok(())
    }
}

/// The encodings that a signature stands for.
pub open spec fn parse_abi_spec(s: Seq<char>) -> Result<Seq<ArgEncoding>, AbiParseError> {
    match letters(s, s.len()) {
        Err(e) => Err(e),
        Ok(encodings) => match check_jump_args(encodings) {
            Err(e) => Err(e),
            Ok(_) => Ok(encodings),
        },
    }
}

proof fn lemma_letters_stop(s: Seq<char>, m: nat, n: nat)
    requires
        m <= n,
        letters(s, m) is Err,
    ensures
        letters(s, n) == letters(s, m),
    decreases n,
{
    if m < n {
        lemma_letters_stop(s, m, (n - 1) as nat);
    }
}

impl InstrAbi {
    /// Read a signature such as `SSf_`.
    pub fn parse(text: &str) -> (r: Result<InstrAbi, AbiParseError>)
        ensures
            match parse_abi_spec(text@) {
                Ok(s) => r matches Ok(abi) && abi@ == s,
                Err(e) => r matches Err(k) && k == e,
            },
    {
        let mut encodings: Vec<ArgEncoding> = Vec::new();
        let mut offsets: usize = 0;
        let mut times: usize = 0;
        let len: usize = text.unicode_len();
        let mut i: usize = 0;
        while i < len
            invariant
                i <= len,
                len == text@.len(),
                offsets <= i,
                times <= i,
                letters(text@, i as nat) == Ok::<Seq<ArgEncoding>, AbiParseError>(encodings@),
                offsets == count_of(encodings@, ArgEncoding::JumpOffset),
                times == count_of(encodings@, ArgEncoding::JumpTime),
            decreases len - i,
        {
            let c: char = text.get_char(i);
            let e = match ArgEncoding::from_char(c) {
                Some(e) => e,
                None => {
                    proof {
                        lemma_letters_stop(text@, (i + 1) as nat, len as nat);
                    }
                    return Err(AbiParseError::BadChar { c });
                },
            };
            let ghost before = encodings@;
            encodings.push(e);
            assert(encodings@.drop_last() =~= before);
            if e == ArgEncoding::JumpOffset {
                offsets = offsets + 1;
            }
            if e == ArgEncoding::JumpTime {
                times = times + 1;
            }
            i = i + 1;
        }
        if offsets > 1 {
            Err(AbiParseError::MultipleOffsets)
        } else if times > 1 {
            Err(AbiParseError::MultipleTimes)
        } else if times == 1 && offsets == 0 {
            Err(AbiParseError::TimeWithoutOffset)
        } else {
            Ok(InstrAbi { encodings })
        }
    }
}

/// The signatures of instructions, by their opcodes, with the places where they are given.
#[derive(Debug)]
pub struct AbiTable {
    pub entries: Vec<(u16, Sp<InstrAbi>)>,
}

/// Where the last of the first `n` entries with an opcode is.
pub open spec fn abi_index(entries: Seq<(u16, Sp<InstrAbi>)>, n: nat, opcode: u16) -> Option<int>
    decreases n,
{
    if n == 0 {
        None
    } else if entries[n - 1].0 == opcode {
        Some(n - 1)
    } else {
        abi_index(entries, (n - 1) as nat, opcode)
    }
}

impl AbiTable {
    pub open spec fn get_spec(self, opcode: u16) -> Option<Sp<InstrAbi>> {
        match abi_index(self.entries@, self.entries@.len(), opcode) {
            Some(i) => Some(self.entries@[i].1),
            None => None,
        }
    }

    /// The signature that was given last for an opcode.
    pub fn get(&self, opcode: u16) -> (r: Option<&Sp<InstrAbi>>)
        ensures
            match self.get_spec(opcode) {
                Some(abi) => r == Some(&abi),
                None => r is None,
            },
    {
        let mut n: usize = self.entries.len();
        while n > 0
            invariant
                n <= self.entries@.len(),
                abi_index(self.entries@, n as nat, opcode) == abi_index(
                    self.entries@,
                    self.entries@.len(),
                    opcode,
                ),
            decreases n,
        {
            if self.entries[n - 1].0 == opcode {
                return Some(&self.entries[n - 1].1);
            }
            n = n - 1;
        }
        None
    }
}

} // verus!
