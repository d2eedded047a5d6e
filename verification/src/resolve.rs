//! What the names of a script stand for.

pub mod node_id_helpers;
pub mod resolve_names;
pub mod rib;
pub mod scoping;

use crate::game::LanguageKey;
use crate::ident::{Ident, ResIdent};
use vstd::prelude::*;
use vstd::string::*;

verus! {

/// A number that tells apart things of one kind.  It is never zero.
pub trait IdNumber: Sized {
    spec fn number(self) -> u32;

    fn from_number(n: u32) -> (r: Self)
        requires
            n != 0,
        ensures
            r.number() == n,
    ;
}

/// Identifies a node in the AST that may be interesting to semantic analysis.
///
/// Semantic analysis passes typically return data indexed by [`NodeId`], bypassing the need
/// to store this information inside the AST or a similarly-shaped structure.
///
/// [`NodeId`]s must generally be unique within any AST node that a semantic analysis pass is called
/// on.  All [`NodeId`]s in the AST are [`Option`]s, which can be `None` until the fragment that they
/// belong to is complete.
#[derive(Debug, Copy, Clone, PartialEq, Eq, PartialOrd, Ord, Hash, Structural)]
pub struct NodeId(pub u32);

/// A "resolvable ID."  Identifies a instance in the source code of an identifier that *can*
/// be resolved to something.
///
/// Name resolution is effectively the act of mapping [`ResId`]s to [`DefId`]s.
#[derive(Debug, Copy, Clone, PartialEq, Eq, PartialOrd, Ord, Hash, Structural)]
pub struct ResId(pub u32);

/// Represents some sort of definition; a unique thing (an item, a local variable, a globally-defined
/// register alias, etc.) that an identifier can possibly be resolved to.
#[derive(Debug, Copy, Clone, PartialEq, Eq, PartialOrd, Ord, Hash, Structural)]
pub struct DefId(pub u32);

/// A [`DefId`] for a const variable.
#[derive(Debug, Copy, Clone, PartialEq, Eq, PartialOrd, Ord, Hash, Structural)]
pub struct ConstId {
    pub def_id: DefId,
}

/// A stable ID for a loop.
///
/// Code transformations may move `continue`/`break` around in ways that cause a different loop to
/// become their lexical parent.
#[derive(Debug, Copy, Clone, PartialEq, Eq, PartialOrd, Ord, Hash, Structural)]
pub struct LoopId(pub u32);

/// The number used to access a register as an instruction argument.  This uniquely identifies a register.
///
/// For instance, in TH17 ECL, the `TIME` register has an id of `-9988`.
#[derive(Debug, Copy, Clone, PartialEq, Eq, PartialOrd, Ord, Hash, Structural)]
pub struct RegId(pub i32);

/// Represents a location to store data.  Two vars alias if they have the same [`AliasableId`].
#[derive(Debug, Copy, Clone, PartialEq, Eq, PartialOrd, Ord, Hash, Structural)]
pub enum AliasableId {
    Reg(RegId),
    /// Typically a local or a temporary.
    Var(DefId),
}

impl IdNumber for NodeId {
    open spec fn number(self) -> u32 {
        self.0
    }

    fn from_number(n: u32) -> (r: Self) {
        NodeId(n)
    }
}

impl IdNumber for DefId {
    open spec fn number(self) -> u32 {
        self.0
    }

    fn from_number(n: u32) -> (r: Self) {
        DefId(n)
    }
}

impl IdNumber for LoopId {
    open spec fn number(self) -> u32 {
        self.0
    }

    fn from_number(n: u32) -> (r: Self) {
        LoopId(n)
    }
}

#[derive(Debug, Copy, Clone, PartialEq, Eq, Hash, Structural)]
pub enum Namespace {
    Vars,
    Funcs,
}

impl Namespace {
    pub open spec fn noun_long_spec(self, alias_language: Option<LanguageKey>) -> Seq<char> {
        match (self, alias_language) {
            (Namespace::Vars, Some(language)) => language.descr_spec() + " register or variable"@,
            (Namespace::Funcs, Some(language)) => language.descr_spec()
                + " instruction or function"@,
            (Namespace::Vars, None) => "variable"@,
            (Namespace::Funcs, None) => "function"@,
        }
    }

    /// What the names of the namespace stand for, in words.
    pub fn noun_long(self, alias_language: Option<LanguageKey>) -> (r: String)
        ensures
            r@ == self.noun_long_spec(alias_language),
    {
        match (self, alias_language) {
            (Namespace::Vars, Some(language)) => {
                let mut out = String::from_str(language.descr());
                out.append(" register or variable");
                out
            },
            (Namespace::Funcs, Some(language)) => {
                let mut out = String::from_str(language.descr());
                out.append(" instruction or function");
                out
            },
            (Namespace::Vars, None) => String::from_str("variable"),
            (Namespace::Funcs, None) => String::from_str("function"),
        }
    }
}

/// ID allocator.
#[derive(Debug)]
pub struct UnusedIds<T> {
    pub next: u32,
    pub _covariant: core::marker::PhantomData<T>,
}

impl<T: IdNumber> UnusedIds<T> {
    /// No id is zero.
    pub open spec fn wf(self) -> bool {
        self.next > 0
    }

    pub fn new() -> (r: Self)
        ensures
            r.wf(),
            r.next == 1,
    {
        UnusedIds { next: 1, _covariant: core::marker::PhantomData }
    }

    /// An id that was not given before.
    pub fn next(&mut self) -> (r: T)
        requires
            old(self).wf(),
            old(self).next < u32::MAX,
        ensures
            final(self).wf(),
            r.number() == old(self).next,
            final(self).next == old(self).next + 1,
    {
        let n: u32 = self.next;
        self.next = n + 1;
        T::from_number(n)
    }
}

// =============================================================================

/// The place where successfully-determined name resolution information is stored in
/// the global compilation context.
#[derive(Debug)]
pub struct Resolutions {
    /// A dense map of [`ResId`] to [`DefId`].  The zeroth element is a dummy.
    pub map: Vec<Option<DefId>>,
}

impl Clone for Resolutions {
    fn clone(&self) -> (r: Self)
        ensures
            r.map@ == self.map@,
    {
        let mut map: Vec<Option<DefId>> = Vec::new();
        let mut i: usize = 0;
        while i < self.map.len()
            invariant
                i <= self.map@.len(),
                map@ == self.map@.take(i as int),
            decreases self.map@.len() - i,
        {
            map.push(self.map[i]);
            i = i + 1;
            assert(map@ =~= self.map@.take(i as int));
        }
        assert(map@ =~= self.map@);
        Resolutions { map }
    }
}

impl Default for Resolutions {
    fn default() -> (r: Self)
        ensures
            r.wf(),
            r.map@ == seq![None::<DefId>],
    {
        Resolutions::new()
    }
}

impl Resolutions {
    /// There is a dummy, so no mention has the number zero.
    pub open spec fn wf(self) -> bool {
        self.map@.len() > 0
    }

    /// Whether a name is one of the mentions that are counted here.
    pub open spec fn knows(self, ident: ResIdent) -> bool {
        ident.res matches Some(res) && 0 < res.0 < self.map@.len()
    }

    /// What a name was resolved to, if it was.
    pub open spec fn def_of(self, ident: ResIdent) -> Option<DefId> {
        self.map@[res_number(ident)]
    }

    pub fn new() -> (r: Self)
        ensures
            r.wf(),
            r.map@ == seq![None::<DefId>],
    {
        let mut map: Vec<Option<DefId>> = Vec::new();
        map.push(None);
        assert(map@ =~= seq![None::<DefId>]);
        Resolutions { map }
    }

    /// Get a new [`ResId`] for an unresolved name.
    pub fn fresh_res(&mut self) -> (r: ResId)
        requires
            old(self).wf(),
            old(self).map@.len() <= u32::MAX,
        ensures
            final(self).wf(),
            r.0 == old(self).map@.len(),
            final(self).map@ == old(self).map@.push(None),
    {
        let res: usize = self.map.len();
        self.map.push(None);
        ResId(res as u32)
    }

    /// Make a mention of a name.
    pub fn attach_fresh_res(&mut self, ident: Ident) -> (r: ResIdent)
        requires
            old(self).wf(),
            old(self).map@.len() <= u32::MAX,
        ensures
            final(self).wf(),
            r == (ResIdent { ident, res: Some(ResId(old(self).map@.len() as u32)) }),
            final(self).map@ == old(self).map@.push(None),
    {
        let res = self.fresh_res();
        ResIdent::new(ident, res)
    }

    /// Record that the given [`ResIdent`] resolves to itself and return its new [`DefId`].
    pub fn record_self_resolution(&mut self, ident: &ResIdent) -> (r: DefId)
        requires
            old(self).knows(*ident),
            old(self).def_of(*ident) is None || old(self).def_of(*ident) == Some(
                own_def(*ident),
            ),
        ensures
            r == own_def(*ident),
            final(self).map@ == old(self).map@.update(res_number(*ident), Some(r)),
    {
        let def = Resolutions::synthesize_def_id_from_res_id(ident.expect_res());
        self._record_resolution(ident, def);
        def
    }

    /// Record what a name stands for.  A name is resolved only once.
    pub fn record_resolution(&mut self, ident: &ResIdent, def: DefId)
        requires
            old(self).knows(*ident),
            old(self).def_of(*ident) is None,
        ensures
            final(self).map@ == old(self).map@.update(res_number(*ident), Some(def)),
    {
        self._record_resolution(ident, def);
    }

    fn _record_resolution(&mut self, ident: &ResIdent, def: DefId)
        requires
            old(self).knows(*ident),
        ensures
            final(self).map@ == old(self).map@.update(res_number(*ident), Some(def)),
    {
        let res = ident.expect_res();
        self.map.set(res.0 as usize, Some(def));
    }

    /// Fallible [`DefId`] lookup.
    ///
    /// This is only useful during the name resolution passes themselves; the majority of code
    /// probably wants [`Self::expect_def`] instead, as all idents should be resolved.
    pub fn try_get_def(&self, ident: &ResIdent) -> (r: Option<DefId>)
        requires
            self.knows(*ident),
        ensures
            r == self.def_of(*ident),
    {
        self.map[ident.expect_res().0 as usize]
    }

    /// What a name that was resolved stands for.
    pub fn expect_def(&self, ident: &ResIdent) -> (r: DefId)
        requires
            self.knows(*ident),
            self.def_of(*ident) is Some,
        ensures
            Some(r) == self.def_of(*ident),
    {
        self.try_get_def(ident).unwrap()
    }

    /// A definition has the number of the mention that defines it.
    fn synthesize_def_id_from_res_id(res: ResId) -> (r: DefId)
        ensures
            r == DefId(res.0),
    {
        // no need to invent new numbers
        DefId(res.0)
    }
}

/// The number of a mention of a name, or zero if it has none.
pub open spec fn res_number(ident: ResIdent) -> int {
    match ident.res {
        Some(res) => res.0 as int,
        None => 0,
    }
}

/// The definition that a name stands for where it is defined.
pub open spec fn own_def(ident: ResIdent) -> DefId {
    DefId(res_number(ident) as u32)
}

/// Two names with different mentions never define the same thing.
pub proof fn law_definitions_are_distinct(a: ResIdent, b: ResIdent)
    requires
        a.res is Some,
        b.res is Some,
        a.res != b.res,
    ensures
        own_def(a) != own_def(b),
{
}

/// Resolving a name gives it a meaning and changes that of no other, and a mention that is made
/// anew has none.
pub proof fn law_resolution_is_local(
    before: Resolutions,
    after: Resolutions,
    ident: ResIdent,
    other: ResIdent,
    def: DefId,
)
    requires
        before.knows(ident),
        before.knows(other),
        after.map@ == before.map@.update(res_number(ident), Some(def)),
    ensures
        after.def_of(ident) == Some(def),
        other.res != ident.res ==> after.def_of(other) == before.def_of(other),
{
}

} // verus!
