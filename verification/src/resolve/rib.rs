//! Ribs: the names that are visible somewhere in a script.

use crate::game::LanguageKey;
use crate::ident::Ident;
use crate::pos::{Sp, Span};
use crate::resolve::{DefId, Namespace};
use vstd::hash_map::StringHashMap;
use vstd::prelude::*;

verus! {

/// What hides the local variables around it.
#[derive(Debug, Copy, Clone, PartialEq, Eq, Structural)]
pub enum BarrierKind {
    Function,
    Const,
}

impl BarrierKind {
    pub open spec fn as_str_spec(self) -> Seq<char> {
        match self {
            BarrierKind::Function => "function"@,
            BarrierKind::Const => "const"@,
        }
    }

    pub fn as_str(self) -> (r: &'static str)
        ensures
            r@ == self.as_str_spec(),
    {
        match self {
            BarrierKind::Function => "function",
            BarrierKind::Const => "const",
        }
    }
}

#[derive(Debug, Copy, Clone, PartialEq, Eq, Structural)]
pub enum RibKind {
    /// Contains locals defined within a block. One is created for each block, and it will
    /// always be the top rib when visiting statements.
    Locals,
    /// Function parameters.  (really just locals, but we put "parameter" in error messages)
    Params,
    /// An empty, "marker" rib indicating the beginning of an item's definition, blocking access
    /// to all locals in outer ribs.  (and re-providing access to const items they've shadowed)
    LocalBarrier { of_what: BarrierKind },
    /// Contains items within a block.  (`const`s or funcs)
    Items,
    /// A rib created from entries in a mapfile.
    Mapfile { language: LanguageKey },
    /// A set of names generated from enum consts.
    EnumConsts,
    /// Implicitly-defined constants that are always available.
    BuiltinConsts,
    /// An empty rib that is always first.
    DummyRoot,
}

impl RibKind {
    pub open spec fn barrier_spec(self) -> Option<BarrierKind> {
        match self {
            RibKind::LocalBarrier { of_what } => Some(of_what),
            _ => None,
        }
    }

    /// If this is a barrier that hides outer local variables, what it is that hides them.
    pub fn barrier(&self) -> (r: Option<BarrierKind>)
        ensures
            r == self.barrier_spec(),
    {
        match *self {
            RibKind::LocalBarrier { of_what } => Some(of_what),
            _ => None,
        }
    }

    /// If this is a barrier that hides outer local variables, get a string describing it.
    /// (`"function"` or `"const"`)
    pub fn local_barrier_cause(&self) -> (r: Option<&'static str>)
        ensures
            match self.barrier_spec() {
                Some(of_what) => r matches Some(s) && s@ == of_what.as_str_spec(),
                None => r is None,
            },
    {
        match self.barrier() {
            Some(of_what) => Some(of_what.as_str()),
            None => None,
        }
    }

    pub open spec fn holds_locals_spec(self) -> bool {
        self is Locals || self is Params
    }

    /// Determine if this rib holds a kind of local.
    pub fn holds_locals(&self) -> (r: bool)
        ensures
            r == self.holds_locals_spec(),
    {
        match *self {
            RibKind::Locals => true,
            RibKind::Params => true,
            _ => false,
        }
    }

    /// Whether ribs of this kind can have names in them.
    pub open spec fn has_noun(self) -> bool {
        !(self is LocalBarrier || self is DummyRoot)
    }
}

#[derive(Debug, Copy, Clone, PartialEq, Eq, Structural)]
pub struct RibEntry {
    pub def_id: DefId,
    pub def_ident_span: Span,
}

/// A collection of names in a single namespace whose scopes all end simultaneously.
///
/// A stack of these is tracked for each namespace, and name resolution walks backwards through the
/// stack trying to find a match.
pub struct Rib {
    pub ns: Namespace,
    pub kind: RibKind,
    pub defs: StringHashMap<RibEntry>,
}

/// The view of a [`Rib`].
#[verifier::ext_equal]
pub ghost struct RibV {
    pub ns: Namespace,
    pub kind: RibKind,
    pub defs: Map<Seq<char>, RibEntry>,
}

impl View for Rib {
    type V = RibV;

    open spec fn view(&self) -> RibV {
        RibV { ns: self.ns, kind: self.kind, defs: self.defs@ }
    }
}

/// What a rib has in it, in words.
pub open spec fn noun_spec(kind: RibKind, ns: Namespace) -> Seq<char> {
    match (kind, ns) {
        (RibKind::Locals, _) => "local"@,
        (RibKind::Params, _) => "parameter"@,
        (RibKind::Items, Namespace::Vars) => "const"@,
        (RibKind::Items, Namespace::Funcs) => "function"@,
        (RibKind::Mapfile { .. }, Namespace::Vars) => "register alias"@,
        (RibKind::Mapfile { .. }, Namespace::Funcs) => "instruction alias"@,
        (RibKind::EnumConsts, _) => "enum const"@,
        (RibKind::BuiltinConsts, _) => "builtin const"@,
        (_, _) => seq![],
    }
}

impl Rib {
    pub fn new(ns: Namespace, kind: RibKind) -> (r: Rib)
        ensures
            r@ == (RibV { ns, kind, defs: Map::empty() }),
    {
        let r = Rib { ns, kind, defs: StringHashMap::new() };
        assert(r@.defs =~= Map::<Seq<char>, RibEntry>::empty());
        r
    }

    pub fn get(&self, ident: &Ident) -> (r: Option<&RibEntry>)
        ensures
            match r {
                Some(entry) => self@.defs.contains_key(ident@) && *entry == self@.defs[ident@],
                None => !self@.defs.contains_key(ident@),
            },
    {
        self.defs.get(ident.text.as_str())
    }

    /// Returns the old definition if this is a redefinition.
    pub fn insert(&mut self, ident: Sp<Ident>, def_id: DefId) -> (r: Result<(), RibEntry>)
        ensures
            final(self)@ == (RibV {
                defs: old(self)@.defs.insert(
                    ident.value@,
                    RibEntry { def_id, def_ident_span: ident.span },
                ),
                ..old(self)@
            }),
            match r {
                Ok(_) => !old(self)@.defs.contains_key(ident.value@),
                Err(entry) => old(self)@.defs.contains_key(ident.value@) && entry == old(
                    self,
                )@.defs[ident.value@],
            },
    {
        let new_entry = RibEntry { def_id, def_ident_span: ident.span };
        let old_entry: Option<RibEntry> = match self.get(&ident.value) {
            Some(entry) => Some(*entry),
            None => None,
        };
        self.defs.insert(ident.value.text, new_entry);
        match old_entry {
            None => Ok(()),
            Some(old_def) => Err(old_def),
        }
    }

    /// Get a singular noun (with no article) describing the type of thing the rib contains,
    /// e.g. `"register alias"` or `"parameter"`.
    pub fn noun(&self) -> (r: &'static str)
        requires
            self.kind.has_noun(),
        ensures
            r@ == noun_spec(self.kind, self.ns),
    {
        match (self.kind, self.ns) {
            (RibKind::Locals, _) => "local",
            (RibKind::Params, _) => "parameter",
            (RibKind::Items, Namespace::Vars) => "const",
            (RibKind::Items, Namespace::Funcs) => "function",
            (RibKind::Mapfile { .. }, Namespace::Vars) => "register alias",
            (RibKind::Mapfile { .. }, Namespace::Funcs) => "instruction alias",
            (RibKind::EnumConsts, _) => "enum const",
            (RibKind::BuiltinConsts, _) => "builtin const",
            (_, _) => unreached(),
        }
    }
}

// =============================================================================

/// Why a name could not be resolved, with names of type `N`.
#[derive(Debug)]
pub enum ResolveError<N> {
    /// "cannot use {noun} from outside {item}"
    LocalFromOutside { kind: RibKind, item: BarrierKind, span: Span, defined: Span },
    /// "unknown {noun} '{name}'"
    Unknown {
        ns: Namespace,
        alias_language: Option<LanguageKey>,
        name: N,
        span: Span,
        /// A language that has such an alias, which is not usable here.
        elsewhere: Option<LanguageKey>,
    },
}

pub open spec fn resolve_error_view(e: ResolveError<Ident>) -> ResolveError<Seq<char>> {
    match e {
        ResolveError::LocalFromOutside { kind, item, span, defined } =>
            ResolveError::LocalFromOutside { kind, item, span, defined },
        ResolveError::Unknown { ns, alias_language, name, span, elsewhere } =>
            ResolveError::Unknown { ns, alias_language, name: name@, span, elsewhere },
    }
}

/// A name that is looked up.
pub ghost struct Query {
    pub ns: Namespace,
    pub span: Span,
    pub alias_language: Option<LanguageKey>,
    pub name: Seq<char>,
}

/// What was met on the way down the ribs, and could not be used.
pub ghost struct Passed {
    /// The first barrier.
    pub barrier: Option<BarrierKind>,
    /// The first local behind the barrier that has the name: the kind of its rib, and the place of
    /// its definition.
    pub hidden: Option<(RibKind, Span)>,
    /// The last language that has an alias of the name which is not usable here.
    pub elsewhere: Option<LanguageKey>,
}

impl Passed {
    pub open spec fn nothing() -> Passed {
        Passed { barrier: None, hidden: None, elsewhere: None }
    }

    /// Pass a rib, as far as it is a barrier.
    pub open spec fn cross(self, rib: RibV) -> Passed {
        Passed {
            barrier: if self.barrier is Some {
                self.barrier
            } else {
                rib.kind.barrier_spec()
            },
            ..self
        }
    }

    /// Pass a local that has the name.
    pub open spec fn pass_local(self, kind: RibKind, defined: Span) -> Passed {
        Passed {
            hidden: if self.hidden is Some {
                self.hidden
            } else {
                Some((kind, defined))
            },
            ..self
        }
    }

    /// Why nothing was found.
    pub open spec fn failure(self, q: Query) -> ResolveError<Seq<char>> {
        match (self.hidden, self.barrier) {
            (Some((kind, defined)), Some(item)) => ResolveError::LocalFromOutside {
                kind,
                item,
                span: q.span,
                defined,
            },
            _ => ResolveError::Unknown {
                ns: q.ns,
                alias_language: q.alias_language,
                name: q.name,
                span: q.span,
                elsewhere: self.elsewhere,
            },
        }
    }
}

/// What a name stands for, looked up in the first `n` ribs from the last one down.
///
/// Behind a barrier locals are passed over, so that what they shadow is found.
pub open spec fn resolve_in(ribs: Seq<RibV>, n: nat, q: Query, passed: Passed) -> Result<
    DefId,
    ResolveError<Seq<char>>,
>
    decreases n,
{
    if n == 0 || n > ribs.len() {
        Err(passed.failure(q))
    } else {
        let rib = ribs[n - 1];
        let passed = passed.cross(rib);
        if !rib.defs.contains_key(q.name) {
            resolve_in(ribs, (n - 1) as nat, q, passed)
        } else if rib.kind.holds_locals_spec() && passed.barrier is Some {
            resolve_in(
                ribs,
                (n - 1) as nat,
                q,
                passed.pass_local(rib.kind, rib.defs[q.name].def_ident_span),
            )
        } else if rib.kind is Mapfile && q.alias_language != Some(rib.kind->language) {
            resolve_in(
                ribs,
                (n - 1) as nat,
                q,
                Passed { elsewhere: Some(rib.kind->language), ..passed },
            )
        } else {
            Ok(rib.defs[q.name].def_id)
        }
    }
}

/// What a name stands for where these ribs are visible.
pub open spec fn resolve_spec(ribs: Seq<RibV>, q: Query) -> Result<DefId, ResolveError<Seq<char>>> {
    resolve_in(ribs, ribs.len(), q, Passed::nothing())
}

/// A helper used during name resolution to track stacks of [`Rib`]s representing the current scope.
pub struct RibStacks {
    pub vars: Vec<Rib>,
    pub funcs: Vec<Rib>,
}

/// The views of the ribs of a stack.
pub open spec fn ribs_view(ribs: Seq<Rib>) -> Seq<RibV> {
    ribs.map_values(|r: Rib| r@)
}

/// The view of [`RibStacks`].
#[verifier::ext_equal]
pub ghost struct StacksV {
    pub vars: Seq<RibV>,
    pub funcs: Seq<RibV>,
}

impl StacksV {
    /// The stack of a namespace.
    pub open spec fn of(self, ns: Namespace) -> Seq<RibV> {
        match ns {
            Namespace::Vars => self.vars,
            Namespace::Funcs => self.funcs,
        }
    }

    /// The stacks with another stack for one namespace.
    pub open spec fn with(self, ns: Namespace, ribs: Seq<RibV>) -> StacksV {
        match ns {
            Namespace::Vars => StacksV { vars: ribs, ..self },
            Namespace::Funcs => StacksV { funcs: ribs, ..self },
        }
    }

    /// The stacks with one more rib.
    pub open spec fn enter(self, rib: RibV) -> StacksV {
        self.with(rib.ns, self.of(rib.ns).push(rib))
    }

    /// The stacks with one more empty rib.
    pub open spec fn enter_new(self, ns: Namespace, kind: RibKind) -> StacksV {
        self.enter(RibV { ns, kind, defs: Map::empty() })
    }

    /// The stacks without the last rib of a namespace.
    pub open spec fn leave(self, ns: Namespace) -> StacksV {
        self.with(ns, self.of(ns).drop_last())
    }
}

impl View for RibStacks {
    type V = StacksV;

    open spec fn view(&self) -> StacksV {
        StacksV { vars: ribs_view(self.vars@), funcs: ribs_view(self.funcs@) }
    }
}

/// The empty rib that is always first.
pub open spec fn root_rib(ns: Namespace) -> RibV {
    RibV { ns, kind: RibKind::DummyRoot, defs: Map::empty() }
}

/// The stacks that some ribs were put on.
pub open spec fn stacks_of(ribs: Seq<RibV>) -> StacksV
    decreases ribs.len(),
{
    if ribs.len() == 0 {
        StacksV {
            vars: seq![root_rib(Namespace::Vars)],
            funcs: seq![root_rib(Namespace::Funcs)],
        }
    } else {
        stacks_of(ribs.drop_last()).enter(ribs.last())
    }
}

proof fn lemma_top_view(ribs: Seq<Rib>)
    requires
        ribs.len() > 0,
    ensures
        ribs_view(ribs).last() == ribs.last()@,
        forall|top: Rib|
            ribs_view(#[trigger] ribs.update(ribs.len() - 1, top)) == ribs_view(
                ribs,
            ).drop_last().push(top@),
{
    assert forall|top: Rib|
        ribs_view(#[trigger] ribs.update(ribs.len() - 1, top)) == ribs_view(ribs).drop_last().push(
            top@,
        ) by {
        assert(ribs_view(ribs.update(ribs.len() - 1, top)) =~= ribs_view(ribs).drop_last().push(
            top@,
        ));
    }
}

impl RibStacks {
    /// Create new stacks sitting in the empty scope.
    pub fn new() -> (r: RibStacks)
        ensures
            r@ == stacks_of(seq![]),
    {
        let mut vars: Vec<Rib> = Vec::new();
        vars.push(Rib::new(Namespace::Vars, RibKind::DummyRoot));
        let mut funcs: Vec<Rib> = Vec::new();
        funcs.push(Rib::new(Namespace::Funcs, RibKind::DummyRoot));
        let r = RibStacks { vars, funcs };
        assert(r@ =~= stacks_of(seq![]));
        r
    }

    /// Put ribs on new stacks.
    pub fn from_ribs(ribs: Vec<Rib>) -> (r: RibStacks)
        ensures
            r@ == stacks_of(ribs_view(ribs@)),
    {
        let ghost views = ribs_view(ribs@);
        let mut out = RibStacks::new();
        let mut rest = ribs;
        let ghost mut k: int = 0;
        assert(views.take(0) =~= seq![]);
        assert(ribs@.skip(0) =~= ribs@);
        while rest.len() > 0
            invariant
                0 <= k <= ribs@.len(),
                rest@ == ribs@.skip(k),
                views == ribs_view(ribs@),
                out@ == stacks_of(views.take(k)),
            decreases rest@.len(),
        {
            let rib = rest.remove(0);
            proof {
                assert(rib == ribs@[k]);
                assert(views[k] == rib@);
                assert(views.take(k + 1).drop_last() =~= views.take(k));
                assert(rest@ =~= ribs@.skip(k + 1));
                k = k + 1;
            }
            out.enter_rib(rib);
        }
        assert(views.take(views.len() as int) =~= views);
        out
    }

    /// Push a rib onto a namespace's rib stack.
    pub fn enter_rib(&mut self, rib: Rib)
        ensures
            final(self)@ == old(self)@.enter(rib@),
    {
        match rib.ns {
            Namespace::Vars => {
                self.vars.push(rib);
                assert(self@ =~= old(self)@.enter(rib@));
            },
            Namespace::Funcs => {
                self.funcs.push(rib);
                assert(self@ =~= old(self)@.enter(rib@));
            },
        }
    }

    /// Push an empty rib onto a namespace's rib stack.
    pub fn enter_new_rib(&mut self, ns: Namespace, kind: RibKind)
        ensures
            final(self)@ == old(self)@.enter_new(ns, kind),
    {
        self.enter_rib(Rib::new(ns, kind))
    }

    /// Pop a rib, which must be of a given kind, from a namespace.
    pub fn leave_rib(&mut self, ns: Namespace, expected_kind: RibKind)
        requires
            old(self)@.of(ns).len() > 0,
            old(self)@.of(ns).last().kind == expected_kind,
        ensures
            final(self)@ == old(self)@.leave(ns),
    {
        match ns {
            Namespace::Vars => {
                self.vars.pop();
                assert(self@ =~= old(self)@.leave(ns));
            },
            Namespace::Funcs => {
                self.funcs.pop();
                assert(self@ =~= old(self)@.leave(ns));
            },
        }
    }

    /// Get the top rib for a namespace, which must be of a given kind.
    pub fn top_rib(&mut self, ns: Namespace, expected_kind: RibKind) -> (r: &mut Rib)
        requires
            old(self)@.of(ns).len() > 0,
            old(self)@.of(ns).last().kind == expected_kind,
        ensures
            r@ == old(self)@.of(ns).last(),
            final(self)@ == old(self)@.with(
                ns,
                old(self)@.of(ns).drop_last().push(final(r)@),
            ),
    {
        match ns {
            Namespace::Vars => {
                let last: usize = self.vars.len() - 1;
                proof {
                    lemma_top_view(self.vars@);
                }
                &mut self.vars[last]
            },
            Namespace::Funcs => {
                let last: usize = self.funcs.len() - 1;
                proof {
                    lemma_top_view(self.funcs@);
                }
                &mut self.funcs[last]
            },
        }
    }

    /// Resolve an identifier by walking backwards through the stack of ribs.
    pub fn resolve(
        &self,
        ns: Namespace,
        cur_span: Span,
        alias_language: Option<LanguageKey>,
        cur_ident: &Ident,
    ) -> (r: Result<DefId, ResolveError<Ident>>)
        ensures
            match resolve_spec(
                self@.of(ns),
                Query { ns, span: cur_span, alias_language, name: cur_ident@ },
            ) {
                Ok(def_id) => r matches Ok(x) && x == def_id,
                Err(e) => r matches Err(k) && resolve_error_view(k) == e,
            },
    {
        let ribs: &Vec<Rib> = match ns {
            Namespace::Vars => &self.vars,
            Namespace::Funcs => &self.funcs,
        };
        let ghost views = ribs_view(ribs@);
        let ghost q = Query { ns, span: cur_span, alias_language, name: cur_ident@ };
        assert(views == self@.of(ns));
        // the first barrier of a function or const that we cross
        let mut crossed_local_border: Option<BarrierKind> = None;
        // the first local that the barrier hides
        let mut hidden_local: Option<(RibKind, Span)> = None;
        // set to Some(_) if we find a match for a reg/instr alias that isn't usable here
        let mut language_with_ident: Option<LanguageKey> = None;
        let mut n: usize = ribs.len();
        while n > 0
            invariant
                n <= ribs@.len(),
                views == ribs_view(ribs@),
                views == self@.of(ns),
                q == (Query { ns, span: cur_span, alias_language, name: cur_ident@ }),
                resolve_in(
                    views,
                    n as nat,
                    q,
                    (Passed {
                        barrier: crossed_local_border,
                        hidden: hidden_local,
                        elsewhere: language_with_ident,
                    }),
                ) == resolve_spec(views, q),
            decreases n,
        {
            let rib = &ribs[n - 1];
            assert(views[n - 1] == rib@);
            if crossed_local_border.is_none() {
                crossed_local_border = rib.kind.barrier();
            }
            if let Some(def) = rib.get(cur_ident) {
                if rib.kind.holds_locals() && crossed_local_border.is_some() {
                    // what it shadows may still be usable
                    if hidden_local.is_none() {
                        hidden_local = Some((rib.kind, def.def_ident_span));
                    }
                } else {
                    match rib.kind {
                        RibKind::Mapfile { language } => {
                            if alias_language != Some(language) {
                                language_with_ident = Some(language);
                            } else {
                                return Ok(def.def_id);
                            }
                        },
                        _ => {
                            return Ok(def.def_id);
                        },
                    }
                }
            }
            n = n - 1;
        }
        if let Some((kind, defined)) = hidden_local {
            if let Some(item) = crossed_local_border {
                return Err(
                    ResolveError::LocalFromOutside { kind, item, span: cur_span, defined },
                );
            }
        }
        Err(
            ResolveError::Unknown {
                ns,
                alias_language,
                name: cur_ident.clone(),
                span: cur_span,
                elsewhere: language_with_ident,
            },
        )
    }
}

// =============================================================================

/// Leaving a scope takes back exactly what entering it did.
pub proof fn law_leave_undoes_enter(stacks: StacksV, rib: RibV)
    ensures
        stacks.enter(rib).leave(rib.ns) == stacks,
{
    assert(stacks.of(rib.ns).push(rib).drop_last() =~= stacks.of(rib.ns));
}

/// Whether a name that is found in a rib can be used from the language of a query.
pub open spec fn usable_in(kind: RibKind, q: Query) -> bool {
    match kind {
        RibKind::Mapfile { language } => q.alias_language == Some(language),
        _ => true,
    }
}

/// What is looked up in some ribs depends on no rib above them.
proof fn lemma_resolve_below(ribs: Seq<RibV>, above: RibV, n: nat, q: Query, passed: Passed)
    requires
        n <= ribs.len(),
    ensures
        resolve_in(ribs.push(above), n, q, passed) == resolve_in(ribs, n, q, passed),
    decreases n,
{
    if n > 0 {
        assert(ribs.push(above)[n - 1] == ribs[n - 1]);
        let rib = ribs[n - 1];
        let next = passed.cross(rib);
        let k = (n - 1) as nat;
        lemma_resolve_below(ribs, above, k, q, next);
        lemma_resolve_below(
            ribs,
            above,
            k,
            q,
            next.pass_local(rib.kind, rib.defs[q.name].def_ident_span),
        );
        if let RibKind::Mapfile { language } = rib.kind {
            lemma_resolve_below(ribs, above, k, q, Passed { elsewhere: Some(language), ..next });
        }
    }
}

/// The innermost definition of a name is what the name stands for, whatever it shadows.
pub proof fn law_innermost_definition_wins(ribs: Seq<RibV>, rib: RibV, q: Query)
    requires
        rib.defs.contains_key(q.name),
        rib.kind.barrier_spec() is None,
        usable_in(rib.kind, q),
    ensures
        resolve_spec(ribs.push(rib), q) == Ok::<DefId, ResolveError<Seq<char>>>(
            rib.defs[q.name].def_id,
        ),
{
}

/// A scope that does not define a name does not change what the name stands for.
pub proof fn law_other_names_show_through(ribs: Seq<RibV>, rib: RibV, q: Query)
    requires
        !rib.defs.contains_key(q.name),
        rib.kind.barrier_spec() is None,
    ensures
        resolve_spec(ribs.push(rib), q) == resolve_spec(ribs, q),
{
    lemma_resolve_below(ribs, rib, ribs.len(), q, Passed::nothing());
}

/// Whether a rib other than one of locals gives a name a meaning.
pub open spec fn given_by_item(ribs: Seq<RibV>, name: Seq<char>, def: DefId) -> bool {
    exists|i: int|
        0 <= i < ribs.len() && !(#[trigger] ribs[i]).kind.holds_locals_spec()
            && ribs[i].defs.contains_key(name) && ribs[i].defs[name].def_id == def
}

/// Behind a barrier a name stands for what it would stand for without the locals around, and if
/// it then stood for nothing, the first of those locals is what cannot be used.
proof fn lemma_behind_barrier(ribs: Seq<RibV>, n: nat, q: Query, passed: Passed)
    requires
        n <= ribs.len(),
        passed.barrier is Some,
    ensures
        match resolve_in(ribs, n, q, passed) {
            Ok(def) => given_by_item(ribs, q.name, def),
            Err(e) => e is LocalFromOutside <==> passed.hidden is Some || exists|i: int|
                0 <= i < n && (#[trigger] ribs[i]).kind.holds_locals_spec()
                    && ribs[i].defs.contains_key(q.name),
        },
    decreases n,
{
    if n > 0 {
        let rib = ribs[n - 1];
        let k = (n - 1) as nat;
        let hidden = passed.pass_local(rib.kind, rib.defs[q.name].def_ident_span);
        lemma_behind_barrier(ribs, k, q, passed);
        lemma_behind_barrier(ribs, k, q, hidden);
        if let RibKind::Mapfile { language } = rib.kind {
            lemma_behind_barrier(ribs, k, q, Passed { elsewhere: Some(language), ..passed });
        }
    }
}

/// The state behind a barrier that hides nothing yet.
pub open spec fn behind(barrier: RibV) -> Passed {
    Passed { barrier: barrier.kind.barrier_spec(), hidden: None, elsewhere: None }
}

/// From inside an item no local variable around it can be named, and the error says so just when
/// there is one of that name.
pub proof fn law_barrier_hides_locals(ribs: Seq<RibV>, barrier: RibV, q: Query)
    requires
        barrier.kind.barrier_spec() is Some,
        !barrier.defs.contains_key(q.name),
    ensures
        match resolve_spec(ribs.push(barrier), q) {
            Ok(def) => given_by_item(ribs, q.name, def),
            Err(e) => e is LocalFromOutside <==> exists|i: int|
                0 <= i < ribs.len() && (#[trigger] ribs[i]).kind.holds_locals_spec()
                    && ribs[i].defs.contains_key(q.name),
        },
{
    lemma_resolve_below(ribs, barrier, ribs.len(), q, behind(barrier));
    lemma_behind_barrier(ribs, ribs.len(), q, behind(barrier));
}

proof fn lemma_item_behind_barrier(ribs: Seq<RibV>, k: int, n: nat, q: Query, passed: Passed)
    requires
        0 <= k < n <= ribs.len(),
        passed.barrier is Some,
        ribs[k].kind is Items,
        ribs[k].defs.contains_key(q.name),
        forall|i: int|
            k < i < n ==> ((#[trigger] ribs[i]).defs.contains_key(q.name)
                ==> ribs[i].kind.holds_locals_spec()),
    ensures
        resolve_in(ribs, n, q, passed) == Ok::<DefId, ResolveError<Seq<char>>>(
            ribs[k].defs[q.name].def_id,
        ),
    decreases n,
{
    if k < n - 1 {
        let rib = ribs[n - 1];
        let m = (n - 1) as nat;
        lemma_item_behind_barrier(ribs, k, m, q, passed);
        let hidden = passed.pass_local(rib.kind, rib.defs[q.name].def_ident_span);
        lemma_item_behind_barrier(ribs, k, m, q, hidden);
    }
}

/// From inside an item the items around it can be named, also those that locals shadow.
pub proof fn law_barrier_shows_items(ribs: Seq<RibV>, k: int, barrier: RibV, q: Query)
    requires
        barrier.kind.barrier_spec() is Some,
        !barrier.defs.contains_key(q.name),
        0 <= k < ribs.len(),
        ribs[k].kind is Items,
        ribs[k].defs.contains_key(q.name),
        forall|i: int|
            k < i < ribs.len() ==> ((#[trigger] ribs[i]).defs.contains_key(q.name)
                ==> ribs[i].kind.holds_locals_spec()),
    ensures
        resolve_spec(ribs.push(barrier), q) == Ok::<DefId, ResolveError<Seq<char>>>(
            ribs[k].defs[q.name].def_id,
        ),
{
    lemma_resolve_below(ribs, barrier, ribs.len(), q, behind(barrier));
    lemma_item_behind_barrier(ribs, k, ribs.len(), q, behind(barrier));
}

} // verus!
