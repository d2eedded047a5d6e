//! Replacement of labels by the values that instructions hold.

use crate::error::{CompileError, Diagnostic, Error, ErrorV};
use crate::ident::Ident;
use crate::instr::format::InstrFormat;
use crate::instr::{args_view, low_view, Instr, InstrArg, InstrArgV, InstrV, LowLevelStmt, LowV, RawArg};
use crate::instr::lower::err_view;
use crate::pos::Sp;
use crate::script::ident_view;
use vstd::hash_map::StringHashMap;
use vstd::prelude::*;

verus! {

/// Where a label is, and the time of the instruction there.
pub struct RawLabelInfo {
    pub ident: Sp<Ident>,
    pub time: i32,
    pub offset: usize,
}

/// The view of a [`RawLabelInfo`].
pub ghost struct LabelInfoV {
    pub ident: Sp<Seq<char>>,
    pub time: i32,
    pub offset: nat,
}

impl View for RawLabelInfo {
    type V = LabelInfoV;

    open spec fn view(&self) -> LabelInfoV {
        LabelInfoV { ident: ident_view(self.ident), time: self.time, offset: self.offset as nat }
    }
}

/// What is known of the labels of a script.
#[verifier::ext_equal]
pub ghost struct GatherSt {
    /// The offset behind the last instruction.
    pub offset: nat,
    /// The labels of the next instruction.
    pub pending: Seq<Sp<Seq<char>>>,
    pub labels: Map<Seq<char>, LabelInfoV>,
    pub errors: Seq<ErrorV>,
}

/// Give the first `n` pending labels a place.  This stops at one that has a place already.
pub open spec fn place_labels(
    labels: Map<Seq<char>, LabelInfoV>,
    pending: Seq<Sp<Seq<char>>>,
    n: nat,
    time: i32,
    offset: nat,
) -> (Map<Seq<char>, LabelInfoV>, Option<ErrorV>)
    decreases n,
{
    if n == 0 {
        (labels, None)
    } else {
        let (before, err) = place_labels(labels, pending, (n - 1) as nat, time, offset);
        let label = pending[n - 1];
        if err is Some {
            (before, err)
        } else if before.contains_key(label.value) {
            (
                before,
                Some(Diagnostic::DuplicateLabel { label, old: before[label.value].ident }),
            )
        } else {
            (before.insert(label.value, LabelInfoV { ident: label, time, offset }), None)
        }
    }
}

pub open spec fn gather_step<F: InstrFormat>(format: F, st: GatherSt, stmt: LowV) -> GatherSt {
    match stmt {
        // can't place labels until we see the time of the instructions they are labeling
        LowV::Label(label) => GatherSt { pending: st.pending.push(label), ..st },
        LowV::Instr(instr) => {
            let (labels, err) = place_labels(
                st.labels,
                st.pending,
                st.pending.len(),
                instr.time,
                st.offset,
            );
            let size = format.instr_size_spec(instr);
            match err {
                Some(e) => GatherSt {
                    pending: seq![],
                    labels,
                    errors: st.errors.push(e),
                    ..st
                },
                None => if st.offset + size > usize::MAX {
                    GatherSt {
                        pending: seq![],
                        labels,
                        errors: st.errors.push(Diagnostic::ScriptTooLarge),
                        ..st
                    }
                } else {
                    GatherSt { pending: seq![], labels, offset: st.offset + size, ..st }
                },
            }
        },
        _ => st,
    }
}

/// What the first `n` statements say of the labels.
pub open spec fn gather<F: InstrFormat>(format: F, initial: nat, code: Seq<LowV>, n: nat) -> GatherSt
    decreases n,
{
    if n == 0 {
        GatherSt { offset: initial, pending: seq![], labels: Map::empty(), errors: seq![] }
    } else {
        gather_step(format, gather(format, initial, code, (n - 1) as nat), code[n - 1])
    }
}

/// All labels of a script with their places.
pub open spec fn gather_label_info_spec<F: InstrFormat>(
    format: F,
    initial: nat,
    code: Seq<LowV>,
) -> Result<Map<Seq<char>, LabelInfoV>, Seq<ErrorV>> {
    let st = gather(format, initial, code, code.len());
    if st.errors.len() > 0 {
        Err(st.errors)
    } else if st.pending.len() > 0 {
        Err(seq![Diagnostic::LabelAtEnd { label: st.pending[0] }])
    } else {
        Ok(st.labels)
    }
}

pub open spec fn info_map(m: Map<Seq<char>, RawLabelInfo>) -> Map<Seq<char>, LabelInfoV> {
    m.map_values(|i: RawLabelInfo| i@)
}

/// Whether every label is at an offset at which an instruction can start.
pub open spec fn all_encodable<F: InstrFormat>(
    format: F,
    labels: Map<Seq<char>, RawLabelInfo>,
) -> bool {
    forall|k: Seq<char>| #[trigger]
        labels.contains_key(k) ==> format.encodable(labels[k].offset as nat)
}

pub open spec fn labels_view(v: Seq<Sp<Ident>>) -> Seq<Sp<Seq<char>>> {
    v.map_values(|l: Sp<Ident>| ident_view(l))
}

/// Give all pending labels a place.
fn place_pending<F: InstrFormat>(
    format: &F,
    labels: &mut StringHashMap<RawLabelInfo>,
    pending: &Vec<Sp<Ident>>,
    time: i32,
    offset: usize,
) -> (r: Result<(), Error>)
    requires
        all_encodable(*format, old(labels)@),
        format.encodable(offset as nat),
    ensures
        all_encodable(*format, final(labels)@),
        (info_map(final(labels)@), err_view(r)) == place_labels(
            info_map(old(labels)@),
            labels_view(pending@),
            pending@.len(),
            time,
            offset as nat,
        ),
{
    let ghost views = labels_view(pending@);
    let ghost start = info_map(labels@);
    let mut i: usize = 0;
    while i < pending.len()
        invariant
            i <= pending@.len(),
            views == labels_view(pending@),
            start == info_map(old(labels)@),
            all_encodable(*format, labels@),
            format.encodable(offset as nat),
            place_labels(start, views, i as nat, time, offset as nat) == (
                info_map(labels@),
                None::<ErrorV>,
            ),
        decreases pending@.len() - i,
    {
        let label = &pending[i];
        assert(views[i as int] == ident_view(*label));
        match labels.get(label.value.text.as_str()) {
            Some(old_info) => {
                let e: Error = Diagnostic::DuplicateLabel {
                    label: label.clone(),
                    old: old_info.ident.clone(),
                };
                proof {
                    lemma_place_stops(
                        start,
                        views,
                        (i + 1) as nat,
                        views.len(),
                        time,
                        offset as nat,
                    );
                }
                return Err(e);
            },
            None => {},
        }
        let ghost before = labels@;
        let info = RawLabelInfo { ident: label.clone(), time, offset };
        let ghost iv = info@;
        labels.insert(label.value.text.clone(), info);
        assert(info_map(labels@) =~= info_map(before).insert(label.value@, iv));
        i = i + 1;
    }
    Ok(())
}

proof fn lemma_place_stops(
    labels: Map<Seq<char>, LabelInfoV>,
    pending: Seq<Sp<Seq<char>>>,
    m: nat,
    n: nat,
    time: i32,
    offset: nat,
)
    requires
        m <= n,
        place_labels(labels, pending, m, time, offset).1 is Some,
    ensures
        place_labels(labels, pending, n, time, offset) == place_labels(
            labels,
            pending,
            m,
            time,
            offset,
        ),
    decreases n,
{
    if m < n {
        lemma_place_stops(labels, pending, m, (n - 1) as nat, time, offset);
    }
}

/// Find the place of every label.
pub fn gather_label_info<F: InstrFormat>(
    format: &F,
    initial_offset: usize,
    code: &Vec<LowLevelStmt>,
) -> (r: Result<StringHashMap<RawLabelInfo>, CompileError>)
    requires
        format.encodable(initial_offset as nat),
    ensures
        match gather_label_info_spec(*format, initial_offset as nat, low_view(code@)) {
            Ok(labels) => r matches Ok(m) && info_map(m@) == labels && all_encodable(*format, m@),
            Err(errors) => r matches Err(e) && e@ == errors,
        },
{
    let ghost views = low_view(code@);
    let mut offset: usize = initial_offset;
    let mut pending_labels: Vec<Sp<Ident>> = Vec::new();
    let mut out: StringHashMap<RawLabelInfo> = StringHashMap::new();
    let mut errors = CompileError::new_empty();
    let mut i: usize = 0;
    proof {
        assert(info_map(out@) =~= Map::empty());
        assert(labels_view(pending_labels@) =~= seq![]);
    }
    while i < code.len()
        invariant
            i <= code@.len(),
            views == low_view(code@),
            format.encodable(offset as nat),
            all_encodable(*format, out@),
            gather(*format, initial_offset as nat, views, i as nat) == (GatherSt {
                offset: offset as nat,
                pending: labels_view(pending_labels@),
                labels: info_map(out@),
                errors: errors@,
            }),
        decreases code@.len() - i,
    {
        assert(views[i as int] == code@[i as int]@);
        match &code[i] {
            LowLevelStmt::Label(ident) => {
                let ghost before = labels_view(pending_labels@);
                pending_labels.push(ident.clone());
                assert(labels_view(pending_labels@) =~= before.push(ident_view(*ident)));
            },
            LowLevelStmt::Instr(instr) => {
                let placed = place_pending(format, &mut out, &pending_labels, instr.time, offset);
                pending_labels = Vec::new();
                assert(labels_view(pending_labels@) =~= seq![]);
                assert(args_view(instr.args@).len() == instr.args@.len());
                match placed {
                    Err(e) => {
                        errors.push(e);
                    },
                    Ok(_) => {
                        let end: Option<usize> = match format.checked_instr_size(instr) {
                            Some(size) => offset.checked_add(size),
                            None => None,
                        };
                        match end {
                            Some(end) => {
                                proof {
                                    format.lemma_offsets(offset as nat, instr@);
                                }
                                offset = end;
                            },
                            None => {
                                errors.push(Diagnostic::ScriptTooLarge);
                            },
                        }
                    },
                }
            },
            _ => {},
        }
        i = i + 1;
    }
    if !errors.is_empty() {
        return Err(errors);
    }
    if pending_labels.len() > 0 {
        let e: Error = Diagnostic::LabelAtEnd { label: pending_labels[0].clone() };
        return Err(CompileError::one(e));
    }
    Ok(out)
}

/// An argument with the value of its label in place of the label.
pub open spec fn encode_arg<F: InstrFormat>(
    format: F,
    labels: Map<Seq<char>, LabelInfoV>,
    arg: InstrArgV,
) -> Result<InstrArgV, ErrorV> {
    match arg {
        InstrArgV::Label(label) => if labels.contains_key(label.value) {
            Ok(
                InstrArgV::Raw(
                    RawArg {
                        bits: format.encode_label_spec(labels[label.value].offset),
                        is_var: false,
                    },
                ),
            )
        } else {
            Err(Diagnostic::UndefinedLabel { label })
        },
        InstrArgV::TimeOf(label) => if labels.contains_key(label.value) {
            Ok(
                InstrArgV::Raw(RawArg { bits: labels[label.value].time as u32, is_var: false }),
            )
        } else {
            Err(Diagnostic::UndefinedLabel { label })
        },
        _ => Ok(arg),
    }
}

/// The first `n` arguments, up to one whose label there is not.
pub open spec fn encode_args<F: InstrFormat>(
    format: F,
    labels: Map<Seq<char>, LabelInfoV>,
    args: Seq<InstrArgV>,
    n: nat,
) -> Result<Seq<InstrArgV>, ErrorV>
    decreases n,
{
    if n == 0 {
        Ok(seq![])
    } else {
        match encode_args(format, labels, args, (n - 1) as nat) {
            Err(e) => Err(e),
            Ok(before) => match encode_arg(format, labels, args[n - 1]) {
                Err(e) => Err(e),
                Ok(arg) => Ok(before.push(arg)),
            },
        }
    }
}

/// The first `n` statements with the values of their labels, and all errors.
pub open spec fn encode_stmts<F: InstrFormat>(
    format: F,
    labels: Map<Seq<char>, LabelInfoV>,
    code: Seq<LowV>,
    n: nat,
) -> (Seq<LowV>, Seq<ErrorV>)
    decreases n,
{
    if n == 0 {
        (seq![], seq![])
    } else {
        let (out, errors) = encode_stmts(format, labels, code, (n - 1) as nat);
        match code[n - 1] {
            LowV::Instr(instr) => match encode_args(format, labels, instr.args, instr.args.len()) {
                Ok(args) => (out.push(LowV::Instr(InstrV { args, ..instr })), errors),
                Err(e) => (out.push(code[n - 1]), errors.push(e)),
            },
            _ => (out.push(code[n - 1]), errors),
        }
    }
}

/// Code with the values of its labels in place of the labels.
pub open spec fn encode_labels_spec<F: InstrFormat>(
    format: F,
    initial: nat,
    code: Seq<LowV>,
) -> Result<Seq<LowV>, Seq<ErrorV>> {
    match gather_label_info_spec(format, initial, code) {
        Err(errors) => Err(errors),
        Ok(labels) => {
            let (out, errors) = encode_stmts(format, labels, code, code.len());
            if errors.len() > 0 {
                Err(errors)
            } else {
                Ok(out)
            }
        },
    }
}

fn encode_instr_args<F: InstrFormat>(
    format: &F,
    labels: &StringHashMap<RawLabelInfo>,
    args: &Vec<InstrArg>,
) -> (r: Result<Vec<InstrArg>, Error>)
    requires
        all_encodable(*format, labels@),
    ensures
        match encode_args(*format, info_map(labels@), args_view(args@), args@.len()) {
            Ok(v) => r matches Ok(out) && args_view(out@) == v,
            Err(e) => r matches Err(err) && err@ == e,
        },
{
    let ghost views = args_view(args@);
    let ghost map = info_map(labels@);
    let mut out: Vec<InstrArg> = Vec::new();
    let mut i: usize = 0;
    assert(args_view(out@) =~= seq![]);
    while i < args.len()
        invariant
            i <= args@.len(),
            views == args_view(args@),
            map == info_map(labels@),
            all_encodable(*format, labels@),
            encode_args(*format, map, views, i as nat) == Ok::<Seq<InstrArgV>, ErrorV>(
                args_view(out@),
            ),
        decreases args@.len() - i,
    {
        assert(views[i as int] == args@[i as int]@);
        let ghost before = args_view(out@);
        let arg: InstrArg = match &args[i] {
            InstrArg::Label(label) => match labels.get(label.value.text.as_str()) {
                Some(info) => {
                    assert(map[label.value@] == info@);
                    InstrArg::Raw(RawArg::from(format.encode_label(info.offset)))
                },
                None => {
                    proof {
                        lemma_encode_stops(*format, map, views, (i + 1) as nat, views.len());
                    }
                    return Err(Diagnostic::UndefinedLabel { label: label.clone() });
                },
            },
            InstrArg::TimeOf(label) => match labels.get(label.value.text.as_str()) {
                Some(info) => {
                    assert(map[label.value@] == info@);
                    InstrArg::Raw(RawArg::from(info.time))
                },
                None => {
                    proof {
                        lemma_encode_stops(*format, map, views, (i + 1) as nat, views.len());
                    }
                    return Err(Diagnostic::UndefinedLabel { label: label.clone() });
                },
            },
            arg => arg.clone(),
        };
        let ghost a = arg@;
        out.push(arg);
        assert(args_view(out@) =~= before.push(a));
        i = i + 1;
    }
    Ok(out)
}

proof fn lemma_encode_stops<F: InstrFormat>(
    format: F,
    labels: Map<Seq<char>, LabelInfoV>,
    args: Seq<InstrArgV>,
    m: nat,
    n: nat,
)
    requires
        m <= n,
        encode_args(format, labels, args, m) is Err,
    ensures
        encode_args(format, labels, args, n) == encode_args(format, labels, args, m),
    decreases n,
{
    if m < n {
        lemma_encode_stops(format, labels, args, m, (n - 1) as nat);
    }
}

/// Eliminates all `InstrArg::Label`s by replacing them with their dword values.
pub fn encode_labels<F: InstrFormat>(
    code: Vec<LowLevelStmt>,
    format: &F,
    initial_offset: usize,
) -> (r: Result<Vec<LowLevelStmt>, CompileError>)
    requires
        format.encodable(initial_offset as nat),
    ensures
        match encode_labels_spec(*format, initial_offset as nat, low_view(code@)) {
            Ok(out) => r matches Ok(v) && low_view(v@) == out,
            Err(errors) => r matches Err(e) && e@ == errors,
        },
{
    let label_info = match gather_label_info(format, initial_offset, &code) {
        Ok(x) => x,
        Err(e) => return Err(e),
    };
    let ghost views = low_view(code@);
    let ghost map = info_map(label_info@);
    let mut out: Vec<LowLevelStmt> = Vec::new();
    let mut errors = CompileError::new_empty();
    let mut i: usize = 0;
    assert(low_view(out@) =~= seq![]);
    while i < code.len()
        invariant
            i <= code@.len(),
            views == low_view(code@),
            map == info_map(label_info@),
            all_encodable(*format, label_info@),
            encode_stmts(*format, map, views, i as nat) == (low_view(out@), errors@),
        decreases code@.len() - i,
    {
        assert(views[i as int] == code@[i as int]@);
        let ghost before = low_view(out@);
        let stmt: LowLevelStmt = match &code[i] {
            LowLevelStmt::Instr(instr) => {
                match encode_instr_args(format, &label_info, &instr.args) {
                    Ok(args) => LowLevelStmt::Instr(
                        Instr { time: instr.time, opcode: instr.opcode, args },
                    ),
                    Err(e) => {
                        errors.push(e);
                        copy_stmt(&code[i])
                    },
                }
            },
            _ => copy_stmt(&code[i]),
        };
        let ghost s = stmt@;
        out.push(stmt);
        assert(low_view(out@) =~= before.push(s));
        i = i + 1;
    }
    if !errors.is_empty() {
        return Err(errors);
    }
    Ok(out)
}

fn copy_stmt(stmt: &LowLevelStmt) -> (r: LowLevelStmt)
    ensures
        r@ == stmt@,
{
    match stmt {
        LowLevelStmt::Instr(instr) => {
            let mut args: Vec<InstrArg> = Vec::new();
            let mut i: usize = 0;
            while i < instr.args.len()
                invariant
                    i <= instr.args@.len(),
                    args@ == instr.args@.take(i as int),
                decreases instr.args@.len() - i,
            {
                args.push(instr.args[i].clone());
                i = i + 1;
                assert(args@ =~= instr.args@.take(i as int));
            }
            assert(instr.args@.take(i as int) =~= instr.args@);
            LowLevelStmt::Instr(Instr { time: instr.time, opcode: instr.opcode, args })
        },
        LowLevelStmt::Label(label) => LowLevelStmt::Label(label.clone()),
        LowLevelStmt::RegAlloc { var, cause } => LowLevelStmt::RegAlloc { var: *var, cause: *cause },
        LowLevelStmt::RegFree { var } => LowLevelStmt::RegFree { var: *var },
    }
}

} // verus!
