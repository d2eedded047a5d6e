//! Types of registers, variables and instruction arguments.

use crate::error::{Diagnostic, Error, ErrorV};
use crate::ident::{GensymContext, Ident};
use crate::pos::{null_span, sp, Sp, Span, Spanned};
use crate::scope::{VarInfoV, Variables};
use crate::script::{expr_view, BinopKind, Expr, ExprV, UnopKind, Var, VarSigil, VarV};
use std::collections::HashMap;
use vstd::hash_map::StringHashMap;
use vstd::prelude::*;

verus! {

broadcast use vstd::std_specs::hash::group_hash_axioms;

/// Type of a value that an instruction works on.
#[derive(Debug, Copy, Clone, PartialEq, Eq, PartialOrd, Ord, Hash, Structural)]
pub enum ScalarType {
    Int,
    Float,
}

/// How an argument of an instruction is encoded.
#[derive(Debug, Copy, Clone, PartialEq, Eq, PartialOrd, Ord, Hash, Structural)]
pub enum ArgEncoding {
    /// A plain integer.
    Dword,
    /// An integer at the end of an instruction that is left out where it is zero.
    Padding,
    /// An integer that is written in hexadecimal.
    Color,
    /// A single-precision number.
    Float,
}

impl ScalarType {
    pub open spec fn check_same_spec(
        self,
        other: ScalarType,
        op: Span,
        spans: (Span, Span),
    ) -> Result<ScalarType, ErrorV> {
        if self == other {
            Ok(self)
        } else {
            Err(
                Diagnostic::TypeMismatch {
                    op,
                    left: Spanned { span: spans.0, value: self },
                    right: Spanned { span: spans.1, value: other },
                },
            )
        }
    }

    /// Give the type if another one is the same, and an error about both otherwise.
    pub fn check_same(self, other: ScalarType, op: Span, spans: (Span, Span)) -> (r: Result<
        ScalarType,
        Error,
    >)
        ensures
            result_view(r) == self.check_same_spec(other, op, spans),
    {
        if self == other {
            Ok(self)
        } else {
            Err(
                Diagnostic::TypeMismatch {
                    op,
                    left: Spanned { span: spans.0, value: self },
                    right: Spanned { span: spans.1, value: other },
                },
            )
        }
    }

    pub open spec fn default_encoding_spec(self) -> ArgEncoding {
        match self {
            ScalarType::Int => ArgEncoding::Dword,
            ScalarType::Float => ArgEncoding::Float,
        }
    }

    /// The encoding of an argument of which only the type is known.
    pub fn default_encoding(self) -> (r: ArgEncoding)
        ensures
            r == self.default_encoding_spec(),
    {
        match self {
            ScalarType::Int => ArgEncoding::Dword,
            ScalarType::Float => ArgEncoding::Float,
        }
    }

    /// The type in words, for use in a sentence.
    pub fn descr(self) -> (r: &'static str)
        ensures
            self is Int ==> r@ == "an integer"@,
            self is Float ==> r@ == "a float"@,
    {
        match self {
            ScalarType::Int => "an integer",
            ScalarType::Float => "a float",
        }
    }
}

/// A result with its error taken by view.
pub open spec fn result_view<T>(r: Result<T, Error>) -> Result<T, ErrorV> {
    match r {
        Ok(x) => Ok(x),
        Err(e) => Err(e@),
    }
}

impl ArgEncoding {
    pub open spec fn expected_type_spec(self) -> ScalarType {
        match self {
            ArgEncoding::Padding => ScalarType::Int,
            ArgEncoding::Color => ScalarType::Int,
            ArgEncoding::Dword => ScalarType::Int,
            ArgEncoding::Float => ScalarType::Float,
        }
    }

    /// The type that an argument with this encoding has.
    pub fn expected_type(self) -> (r: ScalarType)
        ensures
            r == self.expected_type_spec(),
    {
        match self {
            ArgEncoding::Padding | ArgEncoding::Color | ArgEncoding::Dword => ScalarType::Int,
            ArgEncoding::Float => ScalarType::Float,
        }
    }
}

/// The encodings of all arguments of an instruction.
#[derive(Debug)]
pub struct Signature {
    pub encodings: Vec<ArgEncoding>,
}

impl View for Signature {
    type V = Seq<ArgEncoding>;

    open spec fn view(&self) -> Seq<ArgEncoding> {
        self.encodings@
    }
}

/// The number of arguments that remain when padding is dropped from the end.
pub open spec fn unpadded_len(s: Seq<ArgEncoding>) -> nat
    decreases s.len(),
{
    if s.len() == 0 || s.last() != ArgEncoding::Padding {
        s.len()
    } else {
        unpadded_len(s.drop_last())
    }
}

/// The signature of an instruction of which only the number of arguments is known.
pub open spec fn auto_signature(nargs: nat) -> Seq<ArgEncoding> {
    Seq::new(nargs, |i: int| ArgEncoding::Dword)
}

impl Signature {
    /// A signature of integers.
    pub fn auto(nargs: usize) -> (r: Signature)
        ensures
            r@ == auto_signature(nargs as nat),
    {
        let mut encodings: Vec<ArgEncoding> = Vec::new();
        let mut i: usize = 0;
        while i < nargs
            invariant
                i <= nargs,
                encodings@ == auto_signature(i as nat),
            decreases nargs - i,
        {
            encodings.push(ArgEncoding::Dword);
            i = i + 1;
            assert(encodings@ =~= auto_signature(i as nat));
        }
        Signature { encodings }
    }

    /// The encodings of the arguments, in order.
    pub fn arg_encodings(&self) -> (r: &Vec<ArgEncoding>)
        ensures
            r@ == self@,
    {
        &self.encodings
    }

    /// The least number of arguments that a call can have: padding may be left out.
    pub fn min_args(&self) -> (r: usize)
        ensures
            r == unpadded_len(self@),
    {
        let mut n: usize = self.encodings.len();
        assert(self@.take(n as int) =~= self@);
        while n > 0 && self.encodings[n - 1] == ArgEncoding::Padding
            invariant
                n <= self@.len(),
                unpadded_len(self@) == unpadded_len(self@.take(n as int)),
            decreases n,
        {
            assert(self@.take(n as int).drop_last() =~= self@.take(n - 1));
            n = n - 1;
        }
        n
    }

    /// The greatest number of arguments that a call can have.
    pub fn max_args(&self) -> (r: usize)
        ensures
            r == self@.len(),
    {
        self.encodings.len()
    }
}

/// What mapfiles say about the registers and instructions of a format.
pub struct RegsAndInstrs {
    pub opcode_signatures: HashMap<u16, Signature>,
    pub opcode_names: HashMap<u16, Ident>,
    pub reg_default_types: HashMap<i32, ScalarType>,
    pub reg_names: HashMap<i32, Ident>,
    /// Names of registers.  Of several registers with one name, the last one has it.
    pub reg_map: Vec<(Ident, i32)>,
    pub func_aliases: StringHashMap<Ident>,
    pub mapfiles: Vec<String>,
}

impl RegsAndInstrs {
    /// Whether nothing is known.
    pub open spec fn is_empty(self) -> bool {
        &&& self.opcode_signatures@ == Map::<u16, Signature>::empty()
        &&& self.opcode_names@ == Map::<u16, Ident>::empty()
        &&& self.reg_default_types@ == Map::<i32, ScalarType>::empty()
        &&& self.reg_names@ == Map::<i32, Ident>::empty()
        &&& self.reg_map@ == Seq::<(Ident, i32)>::empty()
        &&& self.func_aliases@ == Map::<Seq<char>, Ident>::empty()
        &&& self.mapfiles@ == Seq::<String>::empty()
    }

    /// No names, types or signatures.
    pub fn new() -> (r: Self)
        ensures
            r.is_empty(),
    {
        RegsAndInstrs {
            opcode_signatures: HashMap::new(),
            opcode_names: HashMap::new(),
            reg_default_types: HashMap::new(),
            reg_names: HashMap::new(),
            reg_map: Vec::new(),
            func_aliases: StringHashMap::new(),
            mapfiles: Vec::new(),
        }
    }

    pub open spec fn resolve_func_aliases_spec(self, func: Seq<char>) -> Seq<char> {
        if self.func_aliases@.contains_key(func) {
            self.func_aliases@[func]@
        } else {
            func
        }
    }

    /// The name that a function alias stands for; a name that is no alias stands for itself.
    pub fn resolve_func_aliases(&self, func: &Ident) -> (r: Ident)
        ensures
            r@ == self.resolve_func_aliases_spec(func@),
    {
        match self.func_aliases.get(func.text.as_str()) {
            Some(target) => target.clone(),
            None => func.clone(),
        }
    }

    pub open spec fn ins_signature_spec(self, opcode: u16) -> Option<Seq<ArgEncoding>> {
        if self.opcode_signatures@.contains_key(opcode) {
            Some(self.opcode_signatures@[opcode]@)
        } else {
            None
        }
    }

    /// The signature of an instruction.
    pub fn ins_signature(&self, opcode: u16) -> (r: Option<&Signature>)
        ensures
            r is Some <==> self.ins_signature_spec(opcode) is Some,
            r matches Some(s) ==> Some(s@) == self.ins_signature_spec(opcode),
    {
        self.opcode_signatures.get(&opcode)
    }

    /// The register of a name among the first `n` names.
    pub open spec fn named_reg(self, name: Seq<char>, n: nat) -> Option<i32>
        decreases n,
    {
        if n == 0 || n > self.reg_map@.len() {
            None
        } else if self.reg_map@[n - 1].0@ == name {
            Some(self.reg_map@[n - 1].1)
        } else {
            self.named_reg(name, (n - 1) as nat)
        }
    }

    /// The register that a variable stands for.
    ///
    /// The variables with the lowest numbers are the named registers.
    pub open spec fn reg_id_spec(self, var: VarV) -> Option<i32> {
        match var {
            VarV::Named { ident, .. } => self.named_reg(ident, self.reg_map@.len()),
            VarV::Local { var_id, .. } => if var_id.0 < self.reg_map@.len() {
                Some(self.reg_map@[var_id.0 as int].1)
            } else {
                None
            },
            VarV::Register { reg, .. } => Some(reg),
        }
    }

    /// Find the register of a name.
    pub fn find_reg(&self, name: &Ident) -> (r: Option<i32>)
        ensures
            r == self.named_reg(name@, self.reg_map@.len()),
    {
        let mut n: usize = self.reg_map.len();
        while n > 0
            invariant
                n <= self.reg_map@.len(),
                self.named_reg(name@, self.reg_map@.len()) == self.named_reg(name@, n as nat),
            decreases n,
        {
            if self.reg_map[n - 1].0.same(name) {
                return Some(self.reg_map[n - 1].1);
            }
            n = n - 1;
        }
        None
    }

    /// Find the register that a variable stands for.
    pub fn reg_id(&self, var: &Var) -> (r: Option<i32>)
        ensures
            r == self.reg_id_spec(var@),
    {
        match var {
            Var::Named { ident, .. } => self.find_reg(ident),
            Var::Local { var_id, .. } => if var_id.0 < self.reg_map.len() {
                Some(self.reg_map[var_id.0].1)
            } else {
                None
            },
            Var::Register { reg, .. } => Some(*reg),
        }
    }

    pub open spec fn reg_type_spec(self, reg: i32) -> Option<ScalarType> {
        if self.reg_default_types@.contains_key(reg) {
            Some(self.reg_default_types@[reg])
        } else {
            None
        }
    }

    /// The type that a register has where nothing else is said.
    pub fn reg_type(&self, reg: i32) -> (r: Option<ScalarType>)
        ensures
            r == self.reg_type_spec(reg),
    {
        match self.reg_default_types.get(&reg) {
            Some(ty) => Some(*ty),
            None => None,
        }
    }

    /// A register as a script writes it: by its name if it has one, with a sigil unless
    /// the type is the one that the register has anyway.
    pub open spec fn reg_to_ast_spec(self, reg: i32, ty: ScalarType) -> VarV {
        let ty_sigil = if self.reg_type_spec(reg) == Some(ty) {
            None
        } else {
            Some(sigil_of(ty))
        };
        if self.reg_names@.contains_key(reg) {
            VarV::Named { ty_sigil, ident: self.reg_names@[reg]@ }
        } else {
            VarV::Register { ty_sigil, reg }
        }
    }

    /// Write a register as a variable of a script.
    pub fn reg_to_ast(&self, reg: i32, ty: ScalarType) -> (r: Var)
        ensures
            r@ == self.reg_to_ast_spec(reg, ty),
    {
        let ty_sigil = match (self.reg_type(reg), ty) {
            (Some(ScalarType::Int), ScalarType::Int) => None,
            (Some(ScalarType::Float), ScalarType::Float) => None,
            (_, ScalarType::Int) => Some(VarSigil::Int),
            (_, ScalarType::Float) => Some(VarSigil::Float),
        };
        match self.reg_names.get(&reg) {
            Some(name) => Var::Named { ty_sigil, ident: name.clone() },
            None => Var::Register { ty_sigil, reg },
        }
    }

    /// The mapfiles as a script names them.
    pub fn mapfiles_to_ast(&self) -> (r: Vec<Sp<String>>)
        ensures
            r@.len() == self.mapfiles@.len(),
            forall|i: int|
                0 <= i < r@.len() ==> (#[trigger] r@[i]) == (Spanned {
                    span: null_span(),
                    value: self.mapfiles@[i],
                }),
    {
        let mut out: Vec<Sp<String>> = Vec::new();
        let mut i: usize = 0;
        while i < self.mapfiles.len()
            invariant
                i <= self.mapfiles@.len(),
                out@.len() == i,
                forall|j: int|
                    0 <= j < i ==> (#[trigger] out@[j]) == (Spanned {
                        span: null_span(),
                        value: self.mapfiles@[j],
                    }),
            decreases self.mapfiles@.len() - i,
        {
            out.push(sp(self.mapfiles[i].clone()));
            i = i + 1;
        }
        out
    }
}

pub open spec fn sigil_of(ty: ScalarType) -> VarSigil {
    match ty {
        ScalarType::Int => VarSigil::Int,
        ScalarType::Float => VarSigil::Float,
    }
}

pub open spec fn type_of_sigil(s: VarSigil) -> ScalarType {
    match s {
        VarSigil::Int => ScalarType::Int,
        VarSigil::Float => ScalarType::Float,
    }
}

pub open spec fn sigil_in(var: VarV) -> Option<VarSigil> {
    match var {
        VarV::Named { ty_sigil, .. } => ty_sigil,
        VarV::Local { ty_sigil, .. } => ty_sigil,
        VarV::Register { ty_sigil, .. } => ty_sigil,
    }
}

/// Everything that is known of the registers, instructions and variables of a script.
pub struct TypeSystem {
    pub regs_and_instrs: RegsAndInstrs,
    pub variables: Variables,
    pub gensym_ctx: GensymContext,
}

/// The type that a variable has where it is used.
pub open spec fn var_type_spec(
    regs: RegsAndInstrs,
    vars: Seq<VarInfoV>,
    var: VarV,
) -> Option<ScalarType> {
    match sigil_in(var) {
        Some(s) => Some(type_of_sigil(s)),
        None => match var {
            VarV::Named { ident, .. } => match regs.named_reg(ident, regs.reg_map@.len()) {
                Some(reg) => regs.reg_type_spec(reg),
                None => None,
            },
            VarV::Local { var_id, .. } => if var_id.0 < vars.len() {
                vars[var_id.0 as int].ty
            } else {
                None
            },
            VarV::Register { reg, .. } => regs.reg_type_spec(reg),
        },
    }
}

/// The type of an expression, found without checking that its parts fit together.
pub open spec fn shallow_type(
    regs: RegsAndInstrs,
    vars: Seq<VarInfoV>,
    e: Sp<ExprV>,
) -> Result<ScalarType, ErrorV>
    decreases e,
{
    match e.value {
        ExprV::Ternary { left, .. } => shallow_type(regs, vars, *left),
        ExprV::Binop(a, op, _) => if op.value.is_arithmetic_spec() {
            shallow_type(regs, vars, *a)
        } else {
            Ok(ScalarType::Int)
        },
        ExprV::Call { .. } => Err(Diagnostic::Unsupported { span: e.span }),
        ExprV::Unop(op, b) => match op.value {
            UnopKind::Neg => shallow_type(regs, vars, *b),
            UnopKind::Not => Ok(ScalarType::Int),
        },
        ExprV::LitInt { .. } => Ok(ScalarType::Int),
        ExprV::LitFloat { .. } => Ok(ScalarType::Float),
        ExprV::LitString { .. } => Err(Diagnostic::Unsupported { span: e.span }),
        ExprV::Var(var) => match var_type_spec(regs, vars, var.value) {
            Some(ty) => Ok(ty),
            None => Err(Diagnostic::NeedsTypePrefix { span: var.span }),
        },
    }
}

impl TypeSystem {
    /// Nothing is known yet.
    pub fn new() -> (r: Self)
        ensures
            r.regs_and_instrs.is_empty(),
            r.variables@ == Seq::<VarInfoV>::empty(),
            r.gensym_ctx.next == 0,
    {
        TypeSystem {
            regs_and_instrs: RegsAndInstrs::new(),
            variables: Variables::new(),
            gensym_ctx: GensymContext::new(),
        }
    }

    /// The type that a variable has where it is used: that of its sigil, or else its own.
    pub fn var_type(&self, var: &Var) -> (r: Option<ScalarType>)
        ensures
            r == var_type_spec(self.regs_and_instrs, self.variables@, var@),
    {
        let sigil = match var {
            Var::Named { ty_sigil, .. } => *ty_sigil,
            Var::Local { ty_sigil, .. } => *ty_sigil,
            Var::Register { ty_sigil, .. } => *ty_sigil,
        };
        match sigil {
            Some(VarSigil::Int) => Some(ScalarType::Int),
            Some(VarSigil::Float) => Some(ScalarType::Float),
            None => match var {
                Var::Local { var_id, .. } => if var_id.0 < self.variables.vars.len() {
                    self.variables.get_type(*var_id)
                } else {
                    None
                },
                _ => match self.regs_and_instrs.reg_id(var) {
                    Some(reg) => self.regs_and_instrs.reg_type(reg),
                    None => None,
                },
            },
        }
    }

    /// Find the type of an expression without checking that its parts fit together.
    pub fn compute_type_shallow(&self, e: &Sp<Expr>) -> (r: Result<ScalarType, Error>)
        ensures
            result_view(r) == shallow_type(self.regs_and_instrs, self.variables@, expr_view(*e)),
        decreases *e,
    {
        match &e.value {
            Expr::Ternary { left, .. } => self.compute_type_shallow(&**left),
            Expr::Binop(a, op, _) => if op.value.is_arithmetic() {
                self.compute_type_shallow(&**a)
            } else {
                Ok(ScalarType::Int)
            },
            Expr::Call { .. } => Err(Diagnostic::Unsupported { span: e.span }),
            Expr::Unop(op, b) => match op.value {
                UnopKind::Neg => self.compute_type_shallow(&**b),
                UnopKind::Not => Ok(ScalarType::Int),
            },
            Expr::LitInt { .. } => Ok(ScalarType::Int),
            Expr::LitFloat { .. } => Ok(ScalarType::Float),
            Expr::LitString { .. } => Err(Diagnostic::Unsupported { span: e.span }),
            Expr::Var(var) => match self.var_type(&var.value) {
                Some(ty) => Ok(ty),
                None => Err(Diagnostic::NeedsTypePrefix { span: var.span }),
            },
        }
    }
}

impl BinopKind {
    pub open spec fn is_arithmetic_spec(self) -> bool {
        self is Add || self is Sub || self is Mul || self is Div || self is Rem
    }

    pub open spec fn is_comparison_spec(self) -> bool {
        self is Eq || self is Ne || self is Lt || self is Le || self is Gt || self is Ge
    }

    /// Whether the operator is one of `+ - * / %`, which keep the type of their operands.
    pub fn is_arithmetic(self) -> (r: bool)
        ensures
            r == self.is_arithmetic_spec(),
    {
        match self {
            BinopKind::Add | BinopKind::Sub | BinopKind::Mul | BinopKind::Div | BinopKind::Rem => true,
            _ => false,
        }
    }

    /// Whether the operator is one of `== != < <= > >=`.
    pub fn is_comparison(self) -> (r: bool)
        ensures
            r == self.is_comparison_spec(),
    {
        match self {
            BinopKind::Eq | BinopKind::Ne | BinopKind::Lt | BinopKind::Le | BinopKind::Gt
            | BinopKind::Ge => true,
            _ => false,
        }
    }
}

} // verus!
