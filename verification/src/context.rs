//! What is known of the definitions that a script can name.

use crate::ast::{CallableName, FuncParam, TypeKeyword, Var, VarName};
use crate::game::LanguageKey;
use crate::ident::{Ident, ResIdent};
use crate::pos::{Sp, Spanned};
use crate::resolve::{DefId, RegId, Resolutions};
use crate::value::{ExprType, VarType};
use std::collections::HashMap;
use vstd::prelude::*;

verus! {

broadcast use vstd::std_specs::hash::group_hash_axioms;

/// What the values of a parameter stand for, where it is more than numbers.
#[derive(Debug)]
pub enum TypeColor {
    /// The constants of an enum.
    Enum(Ident),
}

/// A parameter of a function.
#[derive(Debug)]
pub struct SignatureParam {
    pub ty: Sp<VarType>,
    /// Whether a call can leave the parameter out.
    pub optional: bool,
    pub ty_color: Option<TypeColor>,
}

/// The parameters of a function and what it returns.
#[derive(Debug)]
pub struct Signature {
    pub params: Vec<SignatureParam>,
    pub return_ty: Sp<ExprType>,
}

/// The number of parameters among the first `n` before one that can be left out.
pub open spec fn required_params(params: Seq<SignatureParam>, n: nat) -> nat
    decreases n,
{
    if n == 0 {
        0
    } else {
        let before = required_params(params, (n - 1) as nat);
        if before == n - 1 && !params[n - 1].optional {
            n
        } else {
            before
        }
    }
}

/// The parameters that a function is declared with.
pub open spec fn declared_params(params: Seq<Sp<FuncParam>>) -> Seq<Sp<VarType>> {
    params.map_values(
        |p: Sp<FuncParam>|
            Spanned {
                span: p.value.ty_keyword.span,
                value: p.value.ty_keyword.value.var_ty_spec(),
            },
    )
}

impl Signature {
    /// The least number of arguments that a call can have.
    pub fn min_args(&self) -> (r: usize)
        ensures
            r == required_params(self.params@, self.params@.len()),
            r <= self.params@.len(),
    {
        let mut i: usize = 0;
        let mut count: usize = 0;
        while i < self.params.len()
            invariant
                i <= self.params@.len(),
                count <= i,
                count == required_params(self.params@, i as nat),
            decreases self.params@.len() - i,
        {
            if count == i && !self.params[i].optional {
                count = count + 1;
            }
            i = i + 1;
        }
        count
    }

    /// The greatest number of arguments that a call can have.
    pub fn max_args(&self) -> (r: usize)
        ensures
            r == self.params@.len(),
    {
        self.params.len()
    }

    /// The signature of a function that a script declares.
    pub fn from_func_params(ty_keyword: Sp<TypeKeyword>, params: &Vec<Sp<FuncParam>>) -> (r:
        Signature)
        ensures
            r@ == declared_sig(ty_keyword, params@),
    {
        let mut out: Vec<SignatureParam> = Vec::new();
        let mut i: usize = 0;
        while i < params.len()
            invariant
                i <= params@.len(),
                out@.len() == i,
                forall|j: int|
                    0 <= j < i ==> {
                        &&& (#[trigger] out@[j]).ty == declared_params(params@)[j]
                        &&& !out@[j].optional
                        &&& out@[j].ty_color is None
                    },
            decreases params@.len() - i,
        {
            let keyword = params[i].value.ty_keyword;
            let value = match keyword.value {
                TypeKeyword::Void => VarType::Untyped { explicit: false },
                other => other.var_ty(),
            };
            let ty = Spanned { span: keyword.span, value };
            out.push(SignatureParam { ty, optional: false, ty_color: None });
            i = i + 1;
        }
        let value = match ty_keyword.value {
            TypeKeyword::Var => ExprType::Void,
            other => other.expr_ty(),
        };
        let r = Signature { params: out, return_ty: Spanned { span: ty_keyword.span, value } };
        assert(r@ =~= declared_sig(ty_keyword, params@));
        r
    }
}

/// What a name can stand for.
#[derive(Debug)]
pub enum DefInfo {
    /// A local variable, a parameter or a constant.
    Var { ty: VarType },
    /// A name for a register.
    RegAlias { language: LanguageKey, reg: RegId },
    /// A function of a script.
    Func { siggy: Signature },
    /// A name for an instruction.
    InsAlias { language: LanguageKey, opcode: u16 },
}

/// The view of a [`SignatureParam`].
#[verifier::ext_equal]
pub ghost struct ParamV {
    pub ty: Sp<VarType>,
    pub optional: bool,
    /// The enum whose constants the values are.
    pub color: Option<Seq<char>>,
}

/// The view of a [`Signature`].
#[verifier::ext_equal]
pub ghost struct SigV {
    pub params: Seq<ParamV>,
    pub return_ty: Sp<ExprType>,
}

/// The view of a [`DefInfo`].
#[verifier::ext_equal]
pub ghost enum InfoV {
    Var { ty: VarType },
    RegAlias { language: LanguageKey, reg: RegId },
    Func { siggy: SigV },
    InsAlias { language: LanguageKey, opcode: u16 },
}

pub open spec fn color_view(color: Option<TypeColor>) -> Option<Seq<char>> {
    match color {
        Some(TypeColor::Enum(name)) => Some(name@),
        None => None,
    }
}

pub open spec fn param_view(p: SignatureParam) -> ParamV {
    ParamV { ty: p.ty, optional: p.optional, color: color_view(p.ty_color) }
}

impl View for Signature {
    type V = SigV;

    open spec fn view(&self) -> SigV {
        SigV {
            params: self.params@.map_values(|p: SignatureParam| param_view(p)),
            return_ty: self.return_ty,
        }
    }
}

impl View for DefInfo {
    type V = InfoV;

    open spec fn view(&self) -> InfoV {
        match *self {
            DefInfo::Var { ty } => InfoV::Var { ty },
            DefInfo::RegAlias { language, reg } => InfoV::RegAlias { language, reg },
            DefInfo::Func { siggy } => InfoV::Func { siggy: siggy@ },
            DefInfo::InsAlias { language, opcode } => InfoV::InsAlias { language, opcode },
        }
    }
}

/// The signature of a function that a script declares.
pub open spec fn declared_sig(ty_keyword: Sp<TypeKeyword>, params: Seq<Sp<FuncParam>>) -> SigV {
    SigV {
        params: declared_params(params).map_values(
            |ty: Sp<VarType>| ParamV { ty, optional: false, color: None },
        ),
        return_ty: Spanned { span: ty_keyword.span, value: ty_keyword.value.expr_ty_spec() },
    }
}

/// The views of all that definitions are.
pub open spec fn infos_view(infos: Map<u32, DefInfo>) -> Map<u32, InfoV> {
    infos.map_values(|i: DefInfo| i@)
}

/// The type of a register.
#[derive(Debug, Copy, Clone)]
pub struct RegTy {
    pub language: LanguageKey,
    pub reg: RegId,
    pub ty: VarType,
}

/// The signature of an instruction.
#[derive(Debug)]
pub struct InsSignature {
    pub language: LanguageKey,
    pub opcode: u16,
    pub siggy: Signature,
}

/// A constant of an enum.
#[derive(Debug)]
pub struct EnumConst {
    pub enum_name: Ident,
    pub name: Ident,
    pub def_id: DefId,
}

/// What is known before a script is read.
#[derive(Debug)]
pub struct DefTables {
    pub reg_types: Vec<RegTy>,
    pub ins_signatures: Vec<InsSignature>,
    pub enum_consts: Vec<EnumConst>,
    /// What the bare name of a constant of an enum stands for until its enum is known.
    pub enum_const_dummy: DefId,
}

/// All definitions of a compilation.
#[derive(Debug)]
pub struct Defs {
    /// What definitions are, by their numbers.
    pub infos: HashMap<u32, DefInfo>,
    pub tables: DefTables,
}

/// Everything that passes share.
#[derive(Debug)]
pub struct CompilerContext {
    pub resolutions: Resolutions,
    pub defs: Defs,
}

/// An instruction whose signature is not known.
#[derive(Debug, Copy, Clone, PartialEq, Eq, Structural)]
pub enum SignatureError {
    /// The signature of an instruction is missing.
    InsMissingSig { language: LanguageKey, opcode: u16 },
    /// The name does not stand for anything that can be called.
    NotCallable,
}

/// The last type that the first `n` entries give a register.
pub open spec fn reg_ty_in(
    entries: Seq<RegTy>,
    n: nat,
    language: LanguageKey,
    reg: RegId,
) -> Option<VarType>
    decreases n,
{
    if n == 0 {
        None
    } else if entries[n - 1].language == language && entries[n - 1].reg == reg {
        Some(entries[n - 1].ty)
    } else {
        reg_ty_in(entries, (n - 1) as nat, language, reg)
    }
}

/// Where the last signature of an instruction is among the first `n`.
pub open spec fn ins_index(
    entries: Seq<InsSignature>,
    n: nat,
    language: LanguageKey,
    opcode: u16,
) -> Option<int>
    decreases n,
{
    if n == 0 {
        None
    } else if entries[n - 1].language == language && entries[n - 1].opcode == opcode {
        Some(n - 1)
    } else {
        ins_index(entries, (n - 1) as nat, language, opcode)
    }
}

/// Where the last constant of an enum with a name is among the first `n`.
pub open spec fn enum_const_index(
    entries: Seq<EnumConst>,
    n: nat,
    enum_name: Seq<char>,
    name: Seq<char>,
) -> Option<int>
    decreases n,
{
    if n == 0 {
        None
    } else if entries[n - 1].enum_name@ == enum_name && entries[n - 1].name@ == name {
        Some(n - 1)
    } else {
        enum_const_index(entries, (n - 1) as nat, enum_name, name)
    }
}

/// Whether all constants with a name among the first `n` belong to one enum.
pub open spec fn unambiguous(
    entries: Seq<EnumConst>,
    n: nat,
    enum_name: Seq<char>,
    name: Seq<char>,
) -> bool
    decreases n,
{
    if n == 0 {
        true
    } else {
        unambiguous(entries, (n - 1) as nat, enum_name, name) && (entries[n - 1].name@ == name
            ==> entries[n - 1].enum_name@ == enum_name)
    }
}

/// Where the last constant with a name is among the first `n`.
pub open spec fn named_const_index(entries: Seq<EnumConst>, n: nat, name: Seq<char>) -> Option<int>
    decreases n,
{
    if n == 0 {
        None
    } else if entries[n - 1].name@ == name {
        Some(n - 1)
    } else {
        named_const_index(entries, (n - 1) as nat, name)
    }
}

impl DefTables {
    pub open spec fn reg_ty_spec(self, language: LanguageKey, reg: RegId) -> VarType {
        match reg_ty_in(self.reg_types@, self.reg_types@.len(), language, reg) {
            Some(ty) => ty,
            None => VarType::Untyped { explicit: false },
        }
    }

    /// The type of a register.
    pub fn reg_ty(&self, language: LanguageKey, reg: RegId) -> (r: VarType)
        ensures
            r == self.reg_ty_spec(language, reg),
    {
        let mut n: usize = self.reg_types.len();
        while n > 0
            invariant
                n <= self.reg_types@.len(),
                reg_ty_in(self.reg_types@, n as nat, language, reg) == reg_ty_in(
                    self.reg_types@,
                    self.reg_types@.len(),
                    language,
                    reg,
                ),
            decreases n,
        {
            let entry = self.reg_types[n - 1];
            if entry.language == language && entry.reg == reg {
                return entry.ty;
            }
            n = n - 1;
        }
        VarType::Untyped { explicit: false }
    }

    pub open spec fn ins_signature_spec(self, language: LanguageKey, opcode: u16) -> Result<
        Signature,
        SignatureError,
    > {
        match ins_index(self.ins_signatures@, self.ins_signatures@.len(), language, opcode) {
            Some(i) => Ok(self.ins_signatures@[i].siggy),
            None => Err(SignatureError::InsMissingSig { language, opcode }),
        }
    }

    /// The signature of an instruction.
    pub fn ins_signature(&self, language: LanguageKey, opcode: u16) -> (r: Result<
        &Signature,
        SignatureError,
    >)
        ensures
            match self.ins_signature_spec(language, opcode) {
                Ok(siggy) => r matches Ok(x) && *x == siggy,
                Err(e) => r matches Err(k) && k == e,
            },
    {
        let mut n: usize = self.ins_signatures.len();
        while n > 0
            invariant
                n <= self.ins_signatures@.len(),
                ins_index(self.ins_signatures@, n as nat, language, opcode) == ins_index(
                    self.ins_signatures@,
                    self.ins_signatures@.len(),
                    language,
                    opcode,
                ),
            decreases n,
        {
            let entry = &self.ins_signatures[n - 1];
            if entry.language == language && entry.opcode == opcode {
                return Ok(&entry.siggy);
            }
            n = n - 1;
        }
        Err(SignatureError::InsMissingSig { language, opcode })
    }

    pub open spec fn enum_const_def_spec(self, enum_name: Seq<char>, name: Seq<char>) -> Option<
        DefId,
    > {
        match enum_const_index(self.enum_consts@, self.enum_consts@.len(), enum_name, name) {
            Some(i) => Some(self.enum_consts@[i].def_id),
            None => None,
        }
    }

    /// The definition of a constant of an enum.
    pub fn enum_const_def_id(&self, enum_name: &Ident, name: &Ident) -> (r: Option<DefId>)
        ensures
            r == self.enum_const_def_spec(enum_name@, name@),
    {
        let mut n: usize = self.enum_consts.len();
        while n > 0
            invariant
                n <= self.enum_consts@.len(),
                enum_const_index(self.enum_consts@, n as nat, enum_name@, name@)
                    == enum_const_index(
                    self.enum_consts@,
                    self.enum_consts@.len(),
                    enum_name@,
                    name@,
                ),
            decreases n,
        {
            let entry = &self.enum_consts[n - 1];
            if entry.enum_name.same(enum_name) && entry.name.same(name) {
                return Some(entry.def_id);
            }
            n = n - 1;
        }
        None
    }

    /// The constant that a bare name stands for, if all constants of that name are of one enum.
    pub open spec fn unqualified_spec(self, name: Seq<char>) -> Option<int> {
        let all = self.enum_consts@;
        match named_const_index(all, all.len(), name) {
            Some(i) => if unambiguous(all, all.len(), all[i].enum_name@, name) {
                Some(i)
            } else {
                None
            },
            None => None,
        }
    }

    /// The constant that a bare name stands for, if all constants of that name are of one enum.
    pub fn unqualified_enum_const(&self, name: &Ident) -> (r: Option<&EnumConst>)
        ensures
            match self.unqualified_spec(name@) {
                Some(i) => 0 <= i < self.enum_consts@.len() && r == Some(&self.enum_consts@[i]),
                None => r is None,
            },
    {
        let mut n: usize = self.enum_consts.len();
        while n > 0
            invariant
                n <= self.enum_consts@.len(),
                named_const_index(self.enum_consts@, n as nat, name@) == named_const_index(
                    self.enum_consts@,
                    self.enum_consts@.len(),
                    name@,
                ),
            decreases n,
        {
            let entry = &self.enum_consts[n - 1];
            if entry.name.same(name) {
                if self.all_in_enum(&entry.enum_name, name) {
                    return Some(entry);
                } else {
                    return None;
                }
            }
            n = n - 1;
        }
        None
    }

    fn all_in_enum(&self, enum_name: &Ident, name: &Ident) -> (r: bool)
        ensures
            r == unambiguous(self.enum_consts@, self.enum_consts@.len(), enum_name@, name@),
    {
        let mut i: usize = 0;
        let mut ok = true;
        while i < self.enum_consts.len()
            invariant
                i <= self.enum_consts@.len(),
                ok == unambiguous(self.enum_consts@, i as nat, enum_name@, name@),
            decreases self.enum_consts@.len() - i,
        {
            let entry = &self.enum_consts[i];
            if entry.name.same(name) && !entry.enum_name.same(enum_name) {
                ok = false;
            }
            i = i + 1;
        }
        ok
    }
}

impl CompilerContext {
    /// What a name is, if it has been resolved.
    pub open spec fn info_spec(self, ident: ResIdent) -> Option<DefInfo> {
        match self.def_spec(ident) {
            Some(def) => if self.defs.infos@.contains_key(def.0) {
                Some(self.defs.infos@[def.0])
            } else {
                None
            },
            None => None,
        }
    }

    pub open spec fn def_spec(self, ident: ResIdent) -> Option<DefId> {
        if self.resolutions.knows(ident) {
            self.resolutions.def_of(ident)
        } else {
            None
        }
    }

    /// What a name stands for, if it has been resolved.
    pub fn def_of(&self, ident: &ResIdent) -> (r: Option<DefId>)
        ensures
            r == self.def_spec(*ident),
    {
        match ident.res {
            Some(res) => {
                if 0 < res.0 && (res.0 as usize) < self.resolutions.map.len() {
                    self.resolutions.try_get_def(ident)
                } else {
                    None
                }
            },
            None => None,
        }
    }

    /// What a name is, if it has been resolved.
    pub fn info_of(&self, ident: &ResIdent) -> (r: Option<&DefInfo>)
        ensures
            match self.info_spec(*ident) {
                Some(info) => r == Some(&info),
                None => r is None,
            },
    {
        match self.def_of(ident) {
            Some(def) => self.defs.infos.get(&def.0),
            None => None,
        }
    }

    /// The register that a variable is, if it is one.
    pub open spec fn var_reg_spec(self, name: VarName) -> Option<(LanguageKey, RegId)> {
        match name {
            VarName::Reg { reg, language } => match language {
                Some(language) => Some((language, reg)),
                None => None,
            },
            VarName::Normal { ident, .. } => match self.info_spec(ident) {
                Some(DefInfo::RegAlias { language, reg }) => Some((language, reg)),
                _ => None,
            },
        }
    }

    /// The register that a variable is, if it is one.
    pub fn var_reg_from_ast(&self, name: &VarName) -> (r: Option<(LanguageKey, RegId)>)
        ensures
            r == self.var_reg_spec(*name),
    {
        match name {
            VarName::Reg { reg, language } => match language {
                Some(language) => Some((*language, *reg)),
                None => None,
            },
            VarName::Normal { ident, .. } => match self.info_of(ident) {
                Some(DefInfo::RegAlias { language, reg }) => Some((*language, *reg)),
                _ => None,
            },
        }
    }

    /// The type that a variable has of itself; `None` if its name does not stand for a variable.
    pub open spec fn inherent_ty_spec(self, name: VarName) -> Option<VarType> {
        match name {
            VarName::Normal { ident, .. } => match self.info_spec(ident) {
                Some(DefInfo::Var { ty }) => Some(ty),
                Some(DefInfo::RegAlias { language, reg }) => Some(
                    self.defs.tables.reg_ty_spec(language, reg),
                ),
                _ => None,
            },
            VarName::Reg { reg, language } => match language {
                Some(language) => Some(self.defs.tables.reg_ty_spec(language, reg)),
                None => None,
            },
        }
    }

    /// The type that a variable has of itself; `None` if its name does not stand for a variable.
    pub fn var_inherent_ty_from_ast(&self, var: &Var) -> (r: Option<VarType>)
        ensures
            r == self.inherent_ty_spec(var.name),
    {
        match &var.name {
            VarName::Normal { ident, .. } => match self.info_of(ident) {
                Some(DefInfo::Var { ty }) => Some(*ty),
                Some(DefInfo::RegAlias { language, reg }) => Some(
                    self.defs.tables.reg_ty(*language, *reg),
                ),
                _ => None,
            },
            VarName::Reg { reg, language } => match language {
                Some(language) => Some(self.defs.tables.reg_ty(*language, *reg)),
                None => None,
            },
        }
    }

    /// The type that a variable has where it is used: its sigil counts before its own type.
    pub open spec fn read_ty_spec(self, var: Var) -> Option<VarType> {
        match var.ty_sigil {
            Some(sigil) => Some(VarType::Typed(sigil.ty_spec())),
            None => self.inherent_ty_spec(var.name),
        }
    }

    /// The type that a variable has where it is used: its sigil counts before its own type.
    pub fn var_read_ty_from_ast(&self, var: &Var) -> (r: Option<VarType>)
        ensures
            r == self.read_ty_spec(*var),
    {
        match var.ty_sigil {
            Some(sigil) => Some(VarType::Typed(sigil.ty())),
            None => self.var_inherent_ty_from_ast(var),
        }
    }

    pub open spec fn signature_spec(self, name: CallableName) -> Result<
        Signature,
        SignatureError,
    > {
        match name {
            CallableName::Ins { opcode, language } => match language {
                Some(language) => self.defs.tables.ins_signature_spec(language, opcode),
                None => Err(SignatureError::NotCallable),
            },
            CallableName::Normal { ident, .. } => match self.info_spec(ident) {
                Some(DefInfo::Func { siggy }) => Ok(siggy),
                Some(DefInfo::InsAlias { language, opcode }) => self.defs.tables.ins_signature_spec(
                    language,
                    opcode,
                ),
                _ => Err(SignatureError::NotCallable),
            },
        }
    }

    /// The signature of what is called.
    pub fn func_signature_from_ast(&self, name: &CallableName) -> (r: Result<
        &Signature,
        SignatureError,
    >)
        ensures
            match self.signature_spec(*name) {
                Ok(siggy) => r matches Ok(x) && *x == siggy,
                Err(e) => r matches Err(k) && k == e,
            },
    {
        match name {
            CallableName::Ins { opcode, language } => match language {
                Some(language) => self.defs.tables.ins_signature(*language, *opcode),
                None => Err(SignatureError::NotCallable),
            },
            CallableName::Normal { ident, .. } => match self.info_of(ident) {
                Some(DefInfo::Func { siggy }) => Ok(siggy),
                Some(DefInfo::InsAlias { language, opcode }) => self.defs.tables.ins_signature(
                    *language,
                    *opcode,
                ),
                _ => Err(SignatureError::NotCallable),
            },
        }
    }
}

} // verus!
