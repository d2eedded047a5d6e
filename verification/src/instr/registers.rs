//! Assignment of registers to temporaries.

use crate::error::{Diagnostic, Error, ErrorV, RegisterUsage, UsageV};
use crate::instr::format::InstrFormat;
use crate::instr::{
    args_view, low_view, Instr, InstrArg, InstrArgV, InstrV, LowLevelStmt, LowV, RawArg,
};
use crate::pos::Span;
use crate::scope::{VarId, VarInfoV, Variables};
use crate::type_system::ScalarType;
use vstd::prelude::*;

verus! {

/// A register that holds a temporary.
#[derive(Debug, Copy, Clone, PartialEq, Eq, Structural)]
pub struct Held {
    pub var: VarId,
    pub reg: i32,
    pub ty: ScalarType,
    /// The place that asked for the temporary.
    pub cause: Span,
}

/// Which registers are free, and what the others hold.  The free register to take next is last.
#[verifier::ext_equal]
pub ghost struct RegSt {
    pub free_int: Seq<i32>,
    pub free_float: Seq<i32>,
    pub held: Seq<Held>,
}

impl RegSt {
    pub open spec fn free(self, ty: ScalarType) -> Seq<i32> {
        match ty {
            ScalarType::Int => self.free_int,
            ScalarType::Float => self.free_float,
        }
    }

    pub open spec fn with_free(self, ty: ScalarType, free: Seq<i32>) -> RegSt {
        match ty {
            ScalarType::Int => RegSt { free_int: free, ..self },
            ScalarType::Float => RegSt { free_float: free, ..self },
        }
    }
}

/// The registers that instructions name themselves.
pub open spec fn used_regs(code: Seq<LowV>) -> Seq<i32>
    decreases code.len(),
{
    if code.len() == 0 {
        seq![]
    } else {
        used_regs(code.drop_last()) + match code.last() {
            LowV::Instr(instr) => used_in_args(instr.args),
            _ => seq![],
        }
    }
}

pub open spec fn used_in_args(args: Seq<InstrArgV>) -> Seq<i32>
    decreases args.len(),
{
    if args.len() == 0 {
        seq![]
    } else {
        let before = used_in_args(args.drop_last());
        match args.last() {
            InstrArgV::Raw(raw) => if raw.is_var {
                before.push(raw.bits as i32)
            } else {
                before
            },
            _ => before,
        }
    }
}

/// The registers of a list that are in use, or those that are not.
pub open spec fn select(regs: Seq<i32>, used: Seq<i32>, in_use: bool) -> Seq<i32>
    decreases regs.len(),
{
    if regs.len() == 0 {
        seq![]
    } else {
        let before = select(regs.drop_last(), used, in_use);
        if used.contains(regs.last()) == in_use {
            before.push(regs.last())
        } else {
            before
        }
    }
}

/// The registers of one type that hold temporaries, with the places that asked for them.
pub open spec fn held_of(held: Seq<Held>, ty: ScalarType) -> Seq<(i32, Span)>
    decreases held.len(),
{
    if held.len() == 0 {
        seq![]
    } else {
        let before = held_of(held.drop_last(), ty);
        if held.last().ty == ty {
            before.push((held.last().reg, held.last().cause))
        } else {
            before
        }
    }
}

/// Where a temporary is held.
pub open spec fn index_of(held: Seq<Held>, var: VarId) -> Option<int>
    decreases held.len(),
{
    if held.len() == 0 {
        None
    } else if held.last().var == var {
        Some(held.len() - 1)
    } else {
        index_of(held.drop_last(), var)
    }
}

pub open spec fn var_ty(vars: Seq<VarInfoV>, var: VarId) -> Option<ScalarType> {
    if var.0 < vars.len() {
        vars[var.0 as int].ty
    } else {
        None
    }
}

/// An argument with the register of its temporary in place of the temporary.
pub open spec fn assign_arg(vars: Seq<VarInfoV>, held: Seq<Held>, arg: InstrArgV) -> Result<
    InstrArgV,
    ErrorV,
> {
    match arg {
        InstrArgV::Local(var) => match (var_ty(vars, var), index_of(held, var)) {
            (Some(ty), Some(i)) => Ok(InstrArgV::Raw(RawArg::from_reg_spec(held[i].reg, ty))),
            _ => Err(Diagnostic::LocalWithoutRegister { var }),
        },
        _ => Ok(arg),
    }
}

/// The first `n` arguments with registers in place of temporaries.
pub open spec fn assign_args(
    vars: Seq<VarInfoV>,
    held: Seq<Held>,
    args: Seq<InstrArgV>,
    n: nat,
) -> Result<Seq<InstrArgV>, ErrorV>
    decreases n,
{
    if n == 0 {
        Ok(seq![])
    } else {
        match assign_args(vars, held, args, (n - 1) as nat) {
            Err(e) => Err(e),
            Ok(before) => match assign_arg(vars, held, args[n - 1]) {
                Err(e) => Err(e),
                Ok(arg) => Ok(before.push(arg)),
            },
        }
    }
}

/// The registers that the code uses, and those that there are.
pub ghost struct RegCx {
    pub vars: Seq<VarInfoV>,
    pub used: Seq<i32>,
    pub int_regs: Seq<i32>,
    pub float_regs: Seq<i32>,
}

impl RegCx {
    pub open spec fn regs(self, ty: ScalarType) -> Seq<i32> {
        match ty {
            ScalarType::Int => self.int_regs,
            ScalarType::Float => self.float_regs,
        }
    }

    /// Every register that is not in use is free, and the first of them is taken first.
    pub open spec fn start(self) -> RegSt {
        RegSt {
            free_int: select(self.int_regs, self.used, false).reverse(),
            free_float: select(self.float_regs, self.used, false).reverse(),
            held: seq![],
        }
    }
}

/// One statement with registers in place of temporaries.
pub open spec fn assign_stmt(cx: RegCx, st: RegSt, stmt: LowV) -> Result<(RegSt, LowV), ErrorV> {
    match stmt {
        LowV::RegAlloc { var, cause } => match var_ty(cx.vars, var) {
            None => Err(Diagnostic::LocalWithoutRegister { var }),
            Some(ty) => if st.free(ty).len() == 0 {
                Err(
                    Diagnostic::OutOfRegisters {
                        cause,
                        ty,
                        usage: UsageV {
                            held: held_of(st.held, ty),
                            unavailable: select(cx.regs(ty), cx.used, true),
                        },
                    },
                )
            } else if index_of(st.held, var) is Some {
                Err(Diagnostic::LocalWithoutRegister { var })
            } else {
                let reg = st.free(ty).last();
                let st1 = st.with_free(ty, st.free(ty).drop_last());
                Ok((RegSt { held: st.held.push(Held { var, reg, ty, cause }), ..st1 }, stmt))
            },
        },
        LowV::RegFree { var } => match (var_ty(cx.vars, var), index_of(st.held, var)) {
            (Some(ty), Some(i)) => {
                let st1 = st.with_free(ty, st.free(ty).push(st.held[i].reg));
                Ok((RegSt { held: st.held.remove(i), ..st1 }, stmt))
            },
            _ => Err(Diagnostic::LocalWithoutRegister { var }),
        },
        LowV::Instr(instr) => match assign_args(
            cx.vars,
            st.held,
            instr.args,
            instr.args.len(),
        ) {
            Ok(args) => Ok((st, LowV::Instr(InstrV { args, ..instr }))),
            Err(e) => Err(e),
        },
        LowV::Label(_) => Ok((st, stmt)),
    }
}

/// The first `n` statements with registers in place of temporaries.
pub open spec fn assign_stmts(cx: RegCx, code: Seq<LowV>, n: nat) -> Result<
    (RegSt, Seq<LowV>),
    ErrorV,
>
    decreases n,
{
    if n == 0 {
        Ok((cx.start(), seq![]))
    } else {
        match assign_stmts(cx, code, (n - 1) as nat) {
            Err(e) => Err(e),
            Ok((st, out)) => match assign_stmt(cx, st, code[n - 1]) {
                Err(e) => Err(e),
                Ok((st1, stmt)) => Ok((st1, out.push(stmt))),
            },
        }
    }
}

pub open spec fn reg_cx<F: InstrFormat>(format: F, vars: Seq<VarInfoV>, code: Seq<LowV>) -> RegCx {
    RegCx {
        vars,
        used: used_regs(code),
        int_regs: format.general_use_regs_spec(ScalarType::Int),
        float_regs: format.general_use_regs_spec(ScalarType::Float),
    }
}

/// Code with registers in place of temporaries.
pub open spec fn assign_registers_spec<F: InstrFormat>(
    format: F,
    vars: Seq<VarInfoV>,
    code: Seq<LowV>,
) -> Result<Seq<LowV>, ErrorV> {
    match assign_stmts(reg_cx(format, vars, code), code, code.len()) {
        Ok((_, out)) => Ok(out),
        Err(e) => Err(e),
    }
}

// =============================================================================

/// The registers that instructions name themselves.
pub fn get_used_regs(code: &Vec<LowLevelStmt>) -> (r: Vec<i32>)
    ensures
        r@ == used_regs(low_view(code@)),
{
    let ghost views = low_view(code@);
    let mut out: Vec<i32> = Vec::new();
    let mut i: usize = 0;
    while i < code.len()
        invariant
            i <= code@.len(),
            views == low_view(code@),
            out@ == used_regs(views.take(i as int)),
        decreases code@.len() - i,
    {
        proof {
            assert(views.take(i + 1).drop_last() =~= views.take(i as int));
            assert(views[i as int] == code@[i as int]@);
        }
        let ghost before = out@;
        match &code[i] {
            LowLevelStmt::Instr(instr) => {
                let ghost args = args_view(instr.args@);
                let mut j: usize = 0;
                assert(out@ =~= before + used_in_args(args.take(0)));
                while j < instr.args.len()
                    invariant
                        j <= instr.args@.len(),
                        args == args_view(instr.args@),
                        out@ == before + used_in_args(args.take(j as int)),
                    decreases instr.args@.len() - j,
                {
                    proof {
                        assert(args.take(j + 1).drop_last() =~= args.take(j as int));
                        assert(args[j as int] == instr.args@[j as int]@);
                    }
                    if let InstrArg::Raw(raw) = &instr.args[j] {
                        if raw.is_var {
                            out.push(raw.bits as i32);
                        }
                    }
                    j = j + 1;
                    assert(out@ =~= before + used_in_args(args.take(j as int)));
                }
                assert(args.take(j as int) =~= args);
            },
            _ => {
                assert(before + seq![] =~= before);
            },
        }
        i = i + 1;
    }
    assert(views.take(i as int) =~= views);
    out
}

fn contains_reg(regs: &Vec<i32>, reg: i32) -> (r: bool)
    ensures
        r == regs@.contains(reg),
{
    let mut i: usize = 0;
    while i < regs.len()
        invariant
            i <= regs@.len(),
            forall|j: int| 0 <= j < i ==> regs@[j] != reg,
        decreases regs@.len() - i,
    {
        if regs[i] == reg {
            return true;
        }
        i = i + 1;
    }
    false
}

/// The registers of a list that are in use, or those that are not.
fn select_regs(regs: &Vec<i32>, used: &Vec<i32>, in_use: bool) -> (r: Vec<i32>)
    ensures
        r@ == select(regs@, used@, in_use),
{
    let mut out: Vec<i32> = Vec::new();
    let mut i: usize = 0;
    while i < regs.len()
        invariant
            i <= regs@.len(),
            out@ == select(regs@.take(i as int), used@, in_use),
        decreases regs@.len() - i,
    {
        assert(regs@.take(i + 1).drop_last() =~= regs@.take(i as int));
        if contains_reg(used, regs[i]) == in_use {
            out.push(regs[i]);
        }
        i = i + 1;
    }
    assert(regs@.take(i as int) =~= regs@);
    out
}

fn reverse_regs(regs: Vec<i32>) -> (r: Vec<i32>)
    ensures
        r@ == regs@.reverse(),
{
    let mut out: Vec<i32> = Vec::new();
    let mut n: usize = regs.len();
    while n > 0
        invariant
            n <= regs@.len(),
            out@ == regs@.reverse().take(regs@.len() - n),
        decreases n,
    {
        out.push(regs[n - 1]);
        n = n - 1;
        assert(out@ =~= regs@.reverse().take(regs@.len() - n));
    }
    assert(regs@.reverse().take(regs@.len() as int) =~= regs@.reverse());
    out
}

fn find_held(held: &Vec<Held>, var: VarId) -> (r: Option<usize>)
    ensures
        match r {
            Some(i) => index_of(held@, var) == Some(i as int) && i < held@.len(),
            None => index_of(held@, var) is None,
        },
{
    let mut n: usize = held.len();
    assert(held@.take(n as int) =~= held@);
    while n > 0
        invariant
            n <= held@.len(),
            index_of(held@, var) == index_of(held@.take(n as int), var),
        decreases n,
    {
        assert(held@.take(n as int).drop_last() =~= held@.take(n - 1));
        if held[n - 1].var == var {
            return Some(n - 1);
        }
        n = n - 1;
    }
    None
}

fn list_held(held: &Vec<Held>, ty: ScalarType) -> (r: Vec<(i32, Span)>)
    ensures
        r@ == held_of(held@, ty),
{
    let mut out: Vec<(i32, Span)> = Vec::new();
    let mut i: usize = 0;
    while i < held.len()
        invariant
            i <= held@.len(),
            out@ == held_of(held@.take(i as int), ty),
        decreases held@.len() - i,
    {
        assert(held@.take(i + 1).drop_last() =~= held@.take(i as int));
        if held[i].ty == ty {
            out.push((held[i].reg, held[i].cause));
        }
        i = i + 1;
    }
    assert(held@.take(i as int) =~= held@);
    out
}

fn var_type_of(variables: &Variables, var: VarId) -> (r: Option<ScalarType>)
    ensures
        r == var_ty(variables@, var),
{
    if var.0 < variables.vars.len() {
        variables.get_type(var)
    } else {
        None
    }
}

fn assign_instr_args(variables: &Variables, held: &Vec<Held>, args: &Vec<InstrArg>) -> (r: Result<
    Vec<InstrArg>,
    Error,
>)
    ensures
        match assign_args(variables@, held@, args_view(args@), args@.len()) {
            Ok(v) => r matches Ok(out) && args_view(out@) == v,
            Err(e) => r matches Err(err) && err@ == e,
        },
{
    let ghost views = args_view(args@);
    let mut out: Vec<InstrArg> = Vec::new();
    let mut i: usize = 0;
    assert(args_view(out@) =~= seq![]);
    while i < args.len()
        invariant
            i <= args@.len(),
            views == args_view(args@),
            assign_args(variables@, held@, views, i as nat) == Ok::<Seq<InstrArgV>, ErrorV>(
                args_view(out@),
            ),
        decreases args@.len() - i,
    {
        assert(views[i as int] == args@[i as int]@);
        let ghost before = args_view(out@);
        let arg: InstrArg = match &args[i] {
            InstrArg::Local(var) => {
                match (var_type_of(variables, *var), find_held(held, *var)) {
                    (Some(ty), Some(k)) => InstrArg::Raw(RawArg::from_reg(held[k].reg, ty)),
                    _ => {
                        proof {
                            lemma_assign_args_stop(
                                variables@,
                                held@,
                                views,
                                (i + 1) as nat,
                                views.len(),
                            );
                        }
                        return Err(Diagnostic::LocalWithoutRegister { var: *var });
                    },
                }
            },
            arg => arg.clone(),
        };
        let ghost a = arg@;
        out.push(arg);
        assert(args_view(out@) =~= before.push(a));
        i = i + 1;
    }
    Ok(out)
}

proof fn lemma_assign_args_stop(
    vars: Seq<VarInfoV>,
    held: Seq<Held>,
    args: Seq<InstrArgV>,
    m: nat,
    n: nat,
)
    requires
        m <= n,
        assign_args(vars, held, args, m) is Err,
    ensures
        assign_args(vars, held, args, n) == assign_args(vars, held, args, m),
    decreases n,
{
    if m < n {
        lemma_assign_args_stop(vars, held, args, m, (n - 1) as nat);
    }
}

proof fn lemma_assign_stmts_stop(cx: RegCx, code: Seq<LowV>, m: nat, n: nat)
    requires
        m <= n,
        assign_stmts(cx, code, m) is Err,
    ensures
        assign_stmts(cx, code, n) == assign_stmts(cx, code, m),
    decreases n,
{
    if m < n {
        lemma_assign_stmts_stop(cx, code, m, (n - 1) as nat);
    }
}

/// Eliminates all `InstrArg::Local`s by giving each temporary a register while it lives.
pub fn assign_registers<F: InstrFormat>(
    code: Vec<LowLevelStmt>,
    format: &F,
    variables: &Variables,
) -> (r: Result<Vec<LowLevelStmt>, Error>)
    ensures
        match assign_registers_spec(*format, variables@, low_view(code@)) {
            Ok(out) => r matches Ok(v) && low_view(v@) == out,
            Err(e) => r matches Err(err) && err@ == e,
        },
{
    let int_regs = format.general_use_regs(ScalarType::Int);
    let float_regs = format.general_use_regs(ScalarType::Float);
    assign_registers_from(&code, &int_regs, &float_regs, variables)
}

/// Eliminates all `InstrArg::Local`s by giving each temporary one of some registers while it lives.
pub fn assign_registers_from(
    code: &Vec<LowLevelStmt>,
    int_regs: &Vec<i32>,
    float_regs: &Vec<i32>,
    variables: &Variables,
) -> (r: Result<Vec<LowLevelStmt>, Error>)
    ensures
        ({
            let views = low_view(code@);
            let cx = RegCx {
                vars: variables@,
                used: used_regs(views),
                int_regs: int_regs@,
                float_regs: float_regs@,
            };
            match assign_stmts(cx, views, views.len()) {
                Ok((_, out)) => r matches Ok(v) && low_view(v@) == out,
                Err(e) => r matches Err(err) && err@ == e,
            }
        }),
{
    let ghost views = low_view(code@);
    let used = get_used_regs(code);
    let ghost cx = RegCx {
        vars: variables@,
        used: used@,
        int_regs: int_regs@,
        float_regs: float_regs@,
    };

    // reversed, since we'll be popping from these lists
    let mut free_int: Vec<i32> = reverse_regs(select_regs(int_regs, &used, false));
    let mut free_float: Vec<i32> = reverse_regs(select_regs(float_regs, &used, false));
    let mut held: Vec<Held> = Vec::new();
    let mut out: Vec<LowLevelStmt> = Vec::new();
    let mut i: usize = 0;
    proof {
        assert(low_view(out@) =~= seq![]);
        assert(held@ =~= seq![]);
    }
    while i < code.len()
        invariant
            i <= code@.len(),
            views == low_view(code@),
            used@ == used_regs(views),
            cx == (RegCx {
                vars: variables@,
                used: used@,
                int_regs: int_regs@,
                float_regs: float_regs@,
            }),
            assign_stmts(cx, views, i as nat) == Ok::<(RegSt, Seq<LowV>), ErrorV>(
                (
                    RegSt { free_int: free_int@, free_float: free_float@, held: held@ },
                    low_view(out@),
                ),
            ),
        decreases code@.len() - i,
    {
        assert(views[i as int] == code@[i as int]@);
        let ghost before = low_view(out@);
        let ghost st = RegSt { free_int: free_int@, free_float: free_float@, held: held@ };
        proof {
            if assign_stmts(cx, views, (i + 1) as nat) is Err {
                lemma_assign_stmts_stop(cx, views, (i + 1) as nat, views.len());
            }
        }
        let stmt: LowLevelStmt = match &code[i] {
            LowLevelStmt::RegAlloc { var, cause } => {
                let ty = match var_type_of(variables, *var) {
                    Some(ty) => ty,
                    None => return Err(Diagnostic::LocalWithoutRegister { var: *var }),
                };
                let popped = match ty {
                    ScalarType::Int => free_int.pop(),
                    ScalarType::Float => free_float.pop(),
                };
                let reg: i32 = match popped {
                    Some(reg) => reg,
                    None => {
                        let unavailable = match ty {
                            ScalarType::Int => select_regs(int_regs, &used, true),
                            ScalarType::Float => select_regs(float_regs, &used, true),
                        };
                        let usage = RegisterUsage { held: list_held(&held, ty), unavailable };
                        return Err(Diagnostic::OutOfRegisters { cause: *cause, ty, usage });
                    },
                };
                match find_held(&held, *var) {
                    Some(_) => return Err(Diagnostic::LocalWithoutRegister { var: *var }),
                    None => {},
                }
                held.push(Held { var: *var, reg, ty, cause: *cause });
                LowLevelStmt::RegAlloc { var: *var, cause: *cause }
            },
            LowLevelStmt::RegFree { var } => {
                let (ty, k) = match (var_type_of(variables, *var), find_held(&held, *var)) {
                    (Some(ty), Some(k)) => (ty, k),
                    _ => return Err(Diagnostic::LocalWithoutRegister { var: *var }),
                };
                let freed = held.remove(k);
                match ty {
                    ScalarType::Int => free_int.push(freed.reg),
                    ScalarType::Float => free_float.push(freed.reg),
                }
                LowLevelStmt::RegFree { var: *var }
            },
            LowLevelStmt::Instr(instr) => {
                match assign_instr_args(variables, &held, &instr.args) {
                    Ok(args) => LowLevelStmt::Instr(
                        Instr { time: instr.time, opcode: instr.opcode, args },
                    ),
                    Err(e) => return Err(e),
                }
            },
            LowLevelStmt::Label(label) => LowLevelStmt::Label(label.clone()),
        };
        let ghost s = stmt@;
        out.push(stmt);
        assert(low_view(out@) =~= before.push(s));
        i = i + 1;
    }
    Ok(out)
}

} // verus!
