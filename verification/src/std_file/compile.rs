//! From scripts to STD files and back.

use crate::binary_io::{ReadError, Warning};
use crate::error::{CompileError, Diagnostic, Error, ErrorV};
use crate::float32::F32;
use crate::game::Game;
use crate::ident::{GensymContext, Ident};
use crate::instr::format::{all_raw, law_read_code_is_raw};
use crate::instr::laws::law_lowered_code_is_raw;
use crate::instr::{args_view, instrs_view, Instr, InstrArg, InstrV};
use crate::instr::lower::{lower_script, lower_sub_ast_to_instrs};
use crate::instr::raise::{raise_instrs_to_sub_ast, raise_stmts, RaiseError};
use crate::meta::FieldsV;
use crate::passes::compile_loop::{self, loop_script, LoopSt};
use crate::passes::const_simplify::{self, simp_script, FloatOp, FloatTable, SimpSt};
use crate::passes::resolve_vars::{initial_state, res_script};
use crate::pos::{sp, sp_null, Sp, Span};
use crate::scope::VarInfoV;
use crate::script::{
    fields_view, item_view, items_view, Block, Fields, Item, ItemV, MetaKeyword, Script, ScriptV,
    StmtV,
};
use crate::std_file::binary::{
    data_at, parse_std, read_std, read_warnings, std_bytes, take_start, unfinished_bytes,
    write_std, write_warnings,
};
use crate::std_file::format::{
    game_format, game_format_spec, write_error_view, FileFormat, GameFormat, WriteError,
};
use crate::std_file::meta::{init_from_meta_spec, make_meta_spec};
use crate::std_file::{StdExtra, StdFile, StdFileV};
use crate::type_system::{RegsAndInstrs, TypeSystem};
use vstd::prelude::*;

verus! {

/// Why a script was not compiled.
#[derive(Debug)]
pub enum CompileFailure {
    /// The script has errors.
    Errors(CompileError),
    /// Results of floating-point arithmetic are missing; with these added to the table, the
    /// compiler gets further.
    NeedFloats(Vec<FloatOp>),
}

/// The view of a [`CompileFailure`].
pub ghost enum FailureV {
    Errors(Seq<ErrorV>),
    NeedFloats(Seq<FloatOp>),
}

impl View for CompileFailure {
    type V = FailureV;

    open spec fn view(&self) -> FailureV {
        match *self {
            CompileFailure::Errors(e) => FailureV::Errors(e@),
            CompileFailure::NeedFloats(ops) => FailureV::NeedFloats(ops@),
        }
    }
}

/// What compiling gives: the variables and the next generated name afterwards, and the result.
pub ghost struct Outcome<T> {
    pub vars: Seq<VarInfoV>,
    pub next: u64,
    pub result: Result<T, FailureV>,
}

/// The script after the passes that come before code generation.
pub open spec fn front_end(
    regs: RegsAndInstrs,
    vars: Seq<VarInfoV>,
    next: u64,
    floats: Seq<(FloatOp, F32)>,
    script: ScriptV,
) -> Outcome<ScriptV> {
    let (script, simp) = simp_script(floats, SimpSt { errors: seq![], pending: seq![] }, script);
    if simp.pending.len() > 0 {
        Outcome { vars, next, result: Err(FailureV::NeedFloats(simp.pending)) }
    } else if simp.errors.len() > 0 {
        Outcome { vars, next, result: Err(FailureV::Errors(simp.errors)) }
    } else {
        let (script, res) = res_script(initial_state(regs), script);
        if res.errors.len() > 0 {
            Outcome { vars, next, result: Err(FailureV::Errors(res.errors)) }
        } else {
            let (script, unrolled) = loop_script(LoopSt { next, errors: seq![] }, script);
            Outcome {
                vars: res.vars,
                next: unrolled.next,
                result: if unrolled.errors.len() > 0 {
                    Err(FailureV::Errors(unrolled.errors))
                } else {
                    Ok(script)
                },
            }
        }
    }
}

fn run_front_end(script: &mut Script, ty_ctx: &mut TypeSystem, floats: FloatTable) -> (r: Result<
    (),
    CompileFailure,
>)
    ensures
        final(ty_ctx).regs_and_instrs == old(ty_ctx).regs_and_instrs,
        ({
            let out = front_end(
                old(ty_ctx).regs_and_instrs,
                old(ty_ctx).variables@,
                old(ty_ctx).gensym_ctx.next,
                floats@,
                old(script)@,
            );
            &&& final(ty_ctx).variables@ == out.vars
            &&& final(ty_ctx).gensym_ctx.next == out.next
            &&& match out.result {
                Ok(s) => r is Ok && final(script)@ == s,
                Err(e) => r matches Err(k) && k@ == e,
            }
        }),
{
    let mut visitor = const_simplify::Visitor::with_floats(floats);
    visitor.visit_script(script);
    match visitor.finish() {
        Ok(_) => {},
        Err(const_simplify::Unfinished::NeedFloats(ops)) => {
            return Err(CompileFailure::NeedFloats(ops));
        },
        Err(const_simplify::Unfinished::Errors(e)) => return Err(CompileFailure::Errors(e)),
    }
    match ty_ctx.resolve_names(script) {
        Ok(_) => {},
        Err(e) => return Err(CompileFailure::Errors(e)),
    }
    let mut visitor = compile_loop::Visitor::new(GensymContext { next: ty_ctx.gensym_ctx.next });
    visitor.visit_script(script);
    ty_ctx.gensym_ctx = GensymContext { next: visitor.gensym_ctx.next };
    match visitor.finish() {
        Ok(_) => Ok(()),
        Err(e) => Err(CompileFailure::Errors(e)),
    }
}

// =============================================================================

/// The parts of a script that make up a STD file, as far as they have been found.
pub ghost struct FoundV {
    /// The keyword and the fields of the `meta` section.
    pub meta: Option<(Span, Sp<FieldsV>)>,
    /// The place and the code of the script called `main`.
    pub main: Option<(Span, Seq<Sp<StmtV>>)>,
}

/// Add what an item holds.
pub open spec fn add_item(found: FoundV, item: Sp<ItemV>) -> Result<FoundV, ErrorV> {
    match item.value {
        ItemV::Meta { keyword, name, fields } => if keyword.value is Meta {
            match name {
                Some(name) => Err(Diagnostic::NamedMeta { name }),
                None => match found.meta {
                    Some((previous, _)) => Err(
                        Diagnostic::DuplicateMeta { keyword: keyword.span, previous },
                    ),
                    None => Ok(FoundV { meta: Some((keyword.span, fields)), ..found }),
                },
            }
        } else {
            Err(Diagnostic::UnexpectedMeta { keyword })
        },
        ItemV::AnmScript { number, name, code } => match number {
            Some(number) => Err(Diagnostic::NumberedScript { span: number.span }),
            None => if name.value != "main"@ {
                Err(Diagnostic::ScriptNotMain { name })
            } else {
                match found.main {
                    Some((previous, _)) => Err(
                        Diagnostic::DuplicateMain { item: item.span, previous },
                    ),
                    None => Ok(FoundV { main: Some((item.span, code)), ..found }),
                }
            },
        },
        ItemV::FileList { .. } => Err(Diagnostic::Unsupported { span: item.span }),
        ItemV::Func { .. } => Err(Diagnostic::Unsupported { span: item.span }),
    }
}

/// What the first `n` items of a script hold.
pub open spec fn find_parts(items: Seq<Sp<ItemV>>, n: nat) -> Result<FoundV, ErrorV>
    decreases n,
{
    if n == 0 {
        Ok(FoundV { meta: None, main: None })
    } else {
        match find_parts(items, (n - 1) as nat) {
            Err(e) => Err(e),
            Ok(found) => add_item(found, items[n - 1]),
        }
    }
}

/// The `meta` section and the code of a script.
pub open spec fn script_parts(script: ScriptV) -> Result<(Sp<FieldsV>, Seq<Sp<StmtV>>), ErrorV> {
    match find_parts(script.items, script.items.len()) {
        Err(e) => Err(e),
        Ok(found) => match (found.meta, found.main) {
            (Some((_, meta)), Some((_, main))) => Ok((meta, main)),
            (None, _) => Err(Diagnostic::MissingMain),
            (Some(_), None) => Err(Diagnostic::MissingMeta),
        },
    }
}

struct Found<'a> {
    meta: Option<(Span, &'a Sp<Fields>)>,
    main: Option<(Span, &'a Block)>,
}

impl<'a> Found<'a> {
    spec fn view(self) -> FoundV {
        FoundV {
            meta: match self.meta {
                Some((span, fields)) => Some((span, fields_view(*fields))),
                None => None,
            },
            main: match self.main {
                Some((span, code)) => Some((span, code@)),
                None => None,
            },
        }
    }

    fn add_item(&mut self, item: &'a Sp<Item>) -> (r: Result<(), Error>)
        ensures
            match add_item(old(self).view(), item_view(*item)) {
                Ok(found) => r is Ok && final(self).view() == found,
                Err(e) => r matches Err(k) && k@ == e,
            },
    {
        match &item.value {
            Item::Meta { keyword, name, fields } => {
                if keyword.value != MetaKeyword::Meta {
                    return Err(Diagnostic::UnexpectedMeta { keyword: *keyword });
                }
                match name {
                    Some(name) => Err(Diagnostic::NamedMeta { name: name.clone() }),
                    None => {
                        if let Some((previous, _)) = self.meta {
                            return Err(
                                Diagnostic::DuplicateMeta { keyword: keyword.span, previous },
                            );
                        }
                        self.meta = Some((keyword.span, fields));
                        Ok(())
                    },
                }
            },
            Item::AnmScript { number, name, code } => {
                if let Some(number) = number {
                    return Err(Diagnostic::NumberedScript { span: number.span });
                }
                if !name.value.is("main") {
                    return Err(Diagnostic::ScriptNotMain { name: name.clone() });
                }
                if let Some((previous, _)) = self.main {
                    return Err(Diagnostic::DuplicateMain { item: item.span, previous });
                }
                self.main = Some((item.span, code));
                Ok(())
            },
            Item::FileList { .. } => Err(Diagnostic::Unsupported { span: item.span }),
            Item::Func { .. } => Err(Diagnostic::Unsupported { span: item.span }),
        }
    }
}

proof fn lemma_parts_stop(items: Seq<Sp<ItemV>>, m: nat, n: nat)
    requires
        m <= n,
        find_parts(items, m) is Err,
    ensures
        find_parts(items, n) == find_parts(items, m),
    decreases n,
{
    if m < n {
        lemma_parts_stop(items, m, (n - 1) as nat);
    }
}

/// Find the `meta` section and the code of a script.
fn find_script_parts(script: &Script) -> (r: Result<(&Sp<Fields>, &Block), Error>)
    ensures
        match script_parts(script@) {
            Ok((meta, main)) => r matches Ok((m, c)) && fields_view(*m) == meta && c@ == main,
            Err(e) => r matches Err(k) && k@ == e,
        },
{
    let ghost views = items_view(script.items@);
    let mut found = Found { meta: None, main: None };
    let mut i: usize = 0;
    while i < script.items.len()
        invariant
            i <= script.items@.len(),
            views == items_view(script.items@),
            views == script@.items,
            find_parts(views, i as nat) == Ok::<FoundV, ErrorV>(found.view()),
        decreases script.items@.len() - i,
    {
        assert(views[i as int] == item_view(script.items@[i as int]));
        match found.add_item(&script.items[i]) {
            Ok(_) => {},
            Err(e) => {
                proof {
                    lemma_parts_stop(views, (i + 1) as nat, views.len());
                }
                return Err(e);
            },
        }
        i = i + 1;
    }
    match (found.meta, found.main) {
        (Some((_, meta)), Some((_, main))) => Ok((meta, main)),
        (None, _) => Err(Diagnostic::MissingMain),
        (Some(_), None) => Err(Diagnostic::MissingMeta),
    }
}

// =============================================================================

/// What compiling a script gives.
pub open spec fn compile_spec<F: FileFormat>(
    format: F,
    regs: RegsAndInstrs,
    vars: Seq<VarInfoV>,
    next: u64,
    floats: Seq<(FloatOp, F32)>,
    script: ScriptV,
) -> Outcome<StdFileV> {
    let front = front_end(regs, vars, next, floats, script);
    match front.result {
        Err(e) => Outcome { vars: front.vars, next: front.next, result: Err(e) },
        Ok(script) => match script_parts(script) {
            Err(e) => Outcome {
                vars: front.vars,
                next: front.next,
                result: Err(FailureV::Errors(seq![e])),
            },
            Ok((meta, main)) => match init_from_meta_spec(format, meta) {
                Err(e) => Outcome {
                    vars: front.vars,
                    next: front.next,
                    result: Err(FailureV::Errors(seq![Diagnostic::BadMeta(e)])),
                },
                Ok(file) => {
                    let (vars, lowered) = lower_script(
                        regs,
                        format.instr_format_spec(),
                        front.vars,
                        main,
                    );
                    Outcome {
                        vars,
                        next: front.next,
                        result: match lowered {
                            Err(errors) => Err(FailureV::Errors(errors)),
                            Ok(instrs) => Ok(StdFileV { script: instrs, ..file }),
                        },
                    }
                },
            },
        },
    }
}

/// Compile a script to a STD file.
pub fn compile_std<F: FileFormat>(
    format: &F,
    script: &Script,
    ty_ctx: &mut TypeSystem,
    floats: FloatTable,
) -> (r: Result<StdFile, CompileFailure>)
    ensures
        final(ty_ctx).regs_and_instrs == old(ty_ctx).regs_and_instrs,
        ({
            let out = compile_spec(
                *format,
                old(ty_ctx).regs_and_instrs,
                old(ty_ctx).variables@,
                old(ty_ctx).gensym_ctx.next,
                floats@,
                script@,
            );
            &&& final(ty_ctx).variables@ == out.vars
            &&& final(ty_ctx).gensym_ctx.next == out.next
            &&& match out.result {
                Ok(file) => r matches Ok(x) && x@ == file,
                Err(e) => r matches Err(k) && k@ == e,
            }
        }),
{
    let mut script = script.clone();
    match run_front_end(&mut script, ty_ctx, floats) {
        Ok(_) => {},
        Err(e) => return Err(e),
    }
    let (meta, main_sub) = match find_script_parts(&script) {
        Ok(x) => x,
        Err(e) => return Err(CompileFailure::Errors(CompileError::one(e))),
    };
    let mut out = match StdFile::init_from_meta(format, meta) {
        Ok(x) => x,
        Err(e) => return Err(
            CompileFailure::Errors(CompileError::one(Diagnostic::BadMeta(e))),
        ),
    };
    match lower_sub_ast_to_instrs(format.instr_format(), &main_sub.0, ty_ctx) {
        Ok(instrs) => {
            out.script = instrs;
            Ok(out)
        },
        Err(e) => Err(CompileFailure::Errors(e)),
    }
}

// =============================================================================

/// The script that a STD file is decompiled to, without post-processing.
pub open spec fn decompile_spec<F: FileFormat>(format: F, regs: RegsAndInstrs, x: StdFileV) -> Result<
    ScriptV,
    RaiseError,
> {
    match raise_stmts(format.instr_format_spec(), regs, x.script, x.script.len()) {
        Err(e) => Err(e),
        Ok((code, _)) => Ok(
            ScriptV {
                mapfiles: regs.mapfiles@.map_values(|f: String| sp_null(f@)),
                items: seq![
                    sp_null(
                        ItemV::Meta {
                            keyword: sp_null(MetaKeyword::Meta),
                            name: None,
                            fields: sp_null(make_meta_spec(format, x)),
                        },
                    ),
                    sp_null(ItemV::AnmScript { number: None, name: sp_null("main"@), code }),
                ],
            },
        ),
    }
}

/// Decompile a STD file, without post-processing the script.
pub fn decompile_std<F: FileFormat>(format: &F, std: &StdFile, ty_ctx: &TypeSystem) -> (r: Result<
    Script,
    RaiseError,
>)
    requires
        format.accepts(std.extra@),
        script_is_raw(std@.script),
    ensures
        match decompile_spec(*format, ty_ctx.regs_and_instrs, std@) {
            Ok(script) => r matches Ok(x) && x@ == script,
            Err(e) => r matches Err(k) && k == e,
        },
{
    proof {
        lemma_raw_instrs(std);
    }
    let code = match raise_instrs_to_sub_ast(
        format.instr_format(),
        &std.script,
        &ty_ctx.regs_and_instrs,
    ) {
        Ok(x) => x,
        Err(e) => return Err(e),
    };
    let mut items: Vec<Sp<Item>> = Vec::new();
    items.push(
        sp(
            Item::Meta {
                keyword: sp(MetaKeyword::Meta),
                name: None,
                fields: sp(std.make_meta(format)),
            },
        ),
    );
    items.push(
        sp(Item::AnmScript { number: None, name: sp(Ident::new("main")), code: Block(code) }),
    );
    let script = Script { mapfiles: ty_ctx.regs_and_instrs.mapfiles_to_ast(), items };
    proof {
        let x = decompile_spec(*format, ty_ctx.regs_and_instrs, std@)->Ok_0;
        assert(script@.mapfiles =~= x.mapfiles);
        assert(script@.items =~= x.items);
    }
    Ok(script)
}

// =============================================================================

/// Whether the instructions of a file can be written.
pub open spec fn script_is_raw(script: Seq<InstrV>) -> bool {
    forall|i: int| 0 <= i < script.len() ==> all_raw((#[trigger] script[i]).args)
}

proof fn lemma_raw_instrs(file: &StdFile)
    requires
        script_is_raw(file@.script),
    ensures
        forall|i: int|
            0 <= i < file.script@.len() ==> all_raw((#[trigger] file.script@[i])@.args),
{
    assert forall|i: int| 0 <= i < file.script@.len() implies all_raw(
        (#[trigger] file.script@[i])@.args,
    ) by {
        assert(instrs_view(file.script@)[i] == file.script@[i]@);
    }
}

proof fn lemma_read_is_raw<F: FileFormat>(format: F, bytes: Seq<u8>)
    ensures
        parse_std(format, bytes) matches Ok(file) ==> script_is_raw(file.script),
{
    if let Ok((start, _)) = take_start(bytes) {
        if let Ok(s) = data_at(bytes, start.script_offset) {
            law_read_code_is_raw(format.instr_format_spec(), s, seq![], 0, None);
        }
    }
}

proof fn lemma_compiled_is_raw<F: FileFormat>(
    format: F,
    regs: RegsAndInstrs,
    vars: Seq<VarInfoV>,
    next: u64,
    floats: Seq<(FloatOp, F32)>,
    script: ScriptV,
)
    ensures
        compile_spec(format, regs, vars, next, floats, script).result matches Ok(file)
            ==> script_is_raw(file.script) && format.accepts(file.extra),
{
    let front = front_end(regs, vars, next, floats, script);
    if let Ok(script) = front.result {
        if let Ok((meta, main)) = script_parts(script) {
            format.lemma_extra_from_meta(meta);
            law_lowered_code_is_raw(regs, format.instr_format_spec(), front.vars, main);
        }
    }
}

fn all_instrs_raw(script: &Vec<Instr>) -> (r: bool)
    ensures
        r == script_is_raw(instrs_view(script@)),
{
    let ghost views = instrs_view(script@);
    let mut i: usize = 0;
    while i < script.len()
        invariant
            i <= script@.len(),
            views == instrs_view(script@),
            forall|k: int| 0 <= k < i ==> all_raw((#[trigger] views[k]).args),
        decreases script@.len() - i,
    {
        let args: &Vec<InstrArg> = &script[i].args;
        assert(views[i as int].args == args_view(args@));
        let mut j: usize = 0;
        while j < args.len()
            invariant
                i < script@.len(),
                j <= args@.len(),
                views == instrs_view(script@),
                views[i as int].args == args_view(args@),
                forall|k: int| 0 <= k < j ==> (#[trigger] views[i as int].args[k]) is Raw,
            decreases args@.len() - j,
        {
            assert(views[i as int].args[j as int] == args@[j as int]@);
            match &args[j] {
                InstrArg::Raw(_) => {},
                _ => {
                    assert(!all_raw(views[i as int].args));
                    return false;
                },
            }
            j = j + 1;
        }
        i = i + 1;
    }
    true
}

impl StdFile {
    /// Whether the header of a file is that of a game's files.
    pub open spec fn is_of(self, game: Game) -> bool {
        match game_format_spec(game) {
            GameFormat::Early(format) => format.accepts(self.extra@),
            GameFormat::Late(format) => format.accepts(self.extra@),
        }
    }

    /// Whether every argument of every instruction is a plain value.
    pub open spec fn is_raw(self) -> bool {
        script_is_raw(self@.script)
    }

    /// Test whether a file can be written or decompiled as one of a game.
    pub fn can_be_written(&self, game: Game) -> (r: bool)
        ensures
            r == (self.is_of(game) && self.is_raw()),
    {
        let header_fits: bool = match (game_format(game), &self.extra) {
            (GameFormat::Early(_), StdExtra::Th06 { .. }) => true,
            (GameFormat::Late(_), StdExtra::Th10 { .. }) => true,
            _ => false,
        };
        header_fits && all_instrs_raw(&self.script)
    }

    /// Decompile a file of a game.
    ///
    /// The script is given as it comes out of the instructions, without post-processing.
    pub fn decompile_to_ast(&self, game: Game, ty_ctx: &TypeSystem) -> (r: Result<
        Script,
        RaiseError,
    >)
        requires
            self.is_of(game),
            self.is_raw(),
        ensures
            match (match game_format_spec(game) {
                GameFormat::Early(format) => decompile_spec(
                    format,
                    ty_ctx.regs_and_instrs,
                    self@,
                ),
                GameFormat::Late(format) => decompile_spec(format, ty_ctx.regs_and_instrs, self@),
            }) {
                Ok(script) => r matches Ok(x) && x@ == script,
                Err(e) => r matches Err(k) && k == e,
            },
    {
        match game_format(game) {
            GameFormat::Early(format) => decompile_std(&format, self, ty_ctx),
            GameFormat::Late(format) => decompile_std(&format, self, ty_ctx),
        }
    }

    /// Compile a script to a file of a game.
    pub fn compile_from_ast(
        game: Game,
        script: &Script,
        ty_ctx: &mut TypeSystem,
        floats: FloatTable,
    ) -> (r: Result<StdFile, CompileFailure>)
        ensures
            final(ty_ctx).regs_and_instrs == old(ty_ctx).regs_and_instrs,
            ({
                let regs = old(ty_ctx).regs_and_instrs;
                let vars = old(ty_ctx).variables@;
                let next = old(ty_ctx).gensym_ctx.next;
                let out = match game_format_spec(game) {
                    GameFormat::Early(format) => compile_spec(
                        format,
                        regs,
                        vars,
                        next,
                        floats@,
                        script@,
                    ),
                    GameFormat::Late(format) => compile_spec(
                        format,
                        regs,
                        vars,
                        next,
                        floats@,
                        script@,
                    ),
                };
                &&& final(ty_ctx).variables@ == out.vars
                &&& final(ty_ctx).gensym_ctx.next == out.next
                &&& match out.result {
                    Ok(file) => r matches Ok(x) && x@ == file && x.is_of(game) && x.is_raw(),
                    Err(e) => r matches Err(k) && k@ == e,
                }
            }),
    {
        proof {
            let regs = ty_ctx.regs_and_instrs;
            let vars = ty_ctx.variables@;
            let next = ty_ctx.gensym_ctx.next;
            match game_format_spec(game) {
                GameFormat::Early(format) => {
                    lemma_compiled_is_raw(format, regs, vars, next, floats@, script@);
                },
                GameFormat::Late(format) => {
                    lemma_compiled_is_raw(format, regs, vars, next, floats@, script@);
                },
            }
        }
        match game_format(game) {
            GameFormat::Early(format) => compile_std(&format, script, ty_ctx, floats),
            GameFormat::Late(format) => compile_std(&format, script, ty_ctx, floats),
        }
    }

    /// Append the bytes of a file of a game to what was written before.
    ///
    /// If this fails, the bytes that come before what keeps the file from being written are there,
    /// with zeros in place of the offsets.
    pub fn write_to_stream(&self, w: &mut Vec<u8>, game: Game, warnings: &mut Vec<Warning>) -> (r:
        Result<(), WriteError<Ident>>)
        requires
            self.is_of(game),
            self.is_raw(),
        ensures
            match (match game_format_spec(game) {
                GameFormat::Early(format) => std_bytes(format, self@),
                GameFormat::Late(format) => std_bytes(format, self@),
            }) {
                Ok(bytes) => r is Ok && final(w)@ == old(w)@ + bytes,
                Err(e) => r matches Err(k) && write_error_view(k) == e && final(w)@ == old(w)@ + (
                match game_format_spec(game) {
                    GameFormat::Early(format) => unfinished_bytes(format, self@),
                    GameFormat::Late(format) => unfinished_bytes(format, self@),
                }),
            },
            final(warnings)@ == old(warnings)@ + (match game_format_spec(game) {
                GameFormat::Early(format) => write_warnings(format, self@),
                GameFormat::Late(format) => write_warnings(format, self@),
            }),
    {
        proof {
            lemma_raw_instrs(self);
        }
        let (mut bytes, written) = match game_format(game) {
            GameFormat::Early(format) => write_std(&format, self, warnings),
            GameFormat::Late(format) => write_std(&format, self, warnings),
        };
        w.append(&mut bytes);
        written
    }

    /// Read a file of a game.
    pub fn read_from_bytes(game: Game, bytes: &[u8], warnings: &mut Vec<Warning>) -> (r: Result<
        StdFile,
        ReadError,
    >)
        ensures
            final(warnings)@ == old(warnings)@ + (match game_format_spec(game) {
                GameFormat::Early(format) => read_warnings(format, bytes@),
                GameFormat::Late(format) => read_warnings(format, bytes@),
            }),
            match (match game_format_spec(game) {
                GameFormat::Early(format) => parse_std(format, bytes@),
                GameFormat::Late(format) => parse_std(format, bytes@),
            }) {
                Ok(file) => r matches Ok(x) && x@ == file && x.is_of(game) && x.is_raw(),
                Err(e) => r matches Err(k) && k == e,
            },
    {
        proof {
            match game_format_spec(game) {
                GameFormat::Early(format) => lemma_read_is_raw(format, bytes@),
                GameFormat::Late(format) => lemma_read_is_raw(format, bytes@),
            }
        }
        match game_format(game) {
            GameFormat::Early(format) => read_std(&format, bytes, warnings),
            GameFormat::Late(format) => read_std(&format, bytes, warnings),
        }
    }
}

} // verus!
