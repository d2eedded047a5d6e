//! Variables and the scopes in which their names are visible.
//!
//! Each variable opens a scope that holds it and everything that was visible where it was
//! declared.  A scope is therefore a chain of variables, the innermost first.

use crate::ident::Ident;
use crate::type_system::ScalarType;
use vstd::prelude::*;

verus! {

/// Identifies a variable of a script.
#[derive(Debug, Copy, Clone, PartialEq, Eq, PartialOrd, Ord, Hash, Structural)]
pub struct VarId(pub usize);

/// Identifies a scope: the number of the variable that opened it plus one, or zero for the
/// scope with nothing in it.
#[derive(Debug, Copy, Clone, PartialEq, Eq, PartialOrd, Ord, Hash, Structural)]
pub struct ScopeId(pub usize);

/// The number of the scope with nothing in it.
pub const EMPTY_SCOPE: usize = 0;

#[derive(Debug)]
pub struct VarInfo {
    /// `None` for a temporary.
    pub name: Option<Ident>,
    pub ty: Option<ScalarType>,
    /// The scope in which the variable was declared.
    pub parent: ScopeId,
}

/// The view of a [`VarInfo`].
pub ghost struct VarInfoV {
    pub name: Option<Seq<char>>,
    pub ty: Option<ScalarType>,
    pub parent: ScopeId,
}

impl View for VarInfo {
    type V = VarInfoV;

    open spec fn view(&self) -> VarInfoV {
        VarInfoV {
            name: match self.name {
                Some(name) => Some(name@),
                None => None,
            },
            ty: self.ty,
            parent: self.parent,
        }
    }
}

/// All variables of a script.
#[derive(Debug)]
pub struct Variables {
    pub vars: Vec<VarInfo>,
}

impl View for Variables {
    type V = Seq<VarInfoV>;

    open spec fn view(&self) -> Seq<VarInfoV> {
        self.vars@.map_values(|v: VarInfo| v@)
    }
}

/// Every variable was declared in a scope that existed before it.
pub open spec fn variables_wf(vars: Seq<VarInfoV>) -> bool {
    forall|i: int| 0 <= i < vars.len() ==> (#[trigger] vars[i]).parent.0 <= i
}

/// The innermost variable of a name in a scope.
pub open spec fn resolve_spec(vars: Seq<VarInfoV>, scope: ScopeId, name: Seq<char>) -> Option<VarId>
    decreases scope.0,
{
    if scope.0 == 0 || scope.0 > vars.len() {
        None
    } else {
        let v = vars[scope.0 - 1];
        if v.name == Some(name) {
            Some(VarId((scope.0 - 1) as usize))
        } else if v.parent.0 < scope.0 {
            resolve_spec(vars, v.parent, name)
        } else {
            None
        }
    }
}

/// Whether a scope is another one or lies inside it.
pub open spec fn is_descendant(vars: Seq<VarInfoV>, scope: ScopeId, ancestor: ScopeId) -> bool
    decreases scope.0,
{
    if scope == ancestor {
        true
    } else if scope.0 == 0 || scope.0 > vars.len() {
        false
    } else {
        let v = vars[scope.0 - 1];
        v.parent.0 < scope.0 && is_descendant(vars, v.parent, ancestor)
    }
}

impl Variables {
    pub fn new() -> (r: Self)
        ensures
            r@ == Seq::<VarInfoV>::empty(),
            variables_wf(r@),
    {
        let r = Variables { vars: Vec::new() };
        assert(r@ =~= Seq::<VarInfoV>::empty());
        r
    }

    /// Declare a variable in a scope.
    pub fn declare(&mut self, parent: ScopeId, name: Ident, ty: Option<ScalarType>) -> (r: VarId)
        requires
            old(self)@.len() < usize::MAX,
            parent.0 <= old(self)@.len(),
        ensures
            r == VarId(old(self)@.len() as usize),
            final(self)@ == old(self)@.push(VarInfoV { name: Some(name@), ty, parent }),
            variables_wf(old(self)@) ==> variables_wf(final(self)@),
    {
        let r = VarId(self.vars.len());
        self.vars.push(VarInfo { name: Some(name), ty, parent });
        assert(self@ =~= old(self)@.push(VarInfoV { name: Some(name@), ty, parent }));
        r
    }

    /// Declare a variable that has no name.
    pub fn declare_temporary(&mut self, ty: Option<ScalarType>) -> (r: VarId)
        requires
            old(self)@.len() < usize::MAX,
        ensures
            r == VarId(old(self)@.len() as usize),
            final(self)@ == old(self)@.push(VarInfoV { name: None, ty, parent: ScopeId(EMPTY_SCOPE) }),
            variables_wf(old(self)@) ==> variables_wf(final(self)@),
    {
        let r = VarId(self.vars.len());
        self.vars.push(VarInfo { name: None, ty, parent: ScopeId(EMPTY_SCOPE) });
        assert(self@ =~= old(self)@.push(VarInfoV { name: None, ty, parent: ScopeId(EMPTY_SCOPE) }));
        r
    }

    /// The scope that a variable opens.
    pub fn get_scope(&self, var: VarId) -> (r: ScopeId)
        requires
            var.0 < self@.len(),
        ensures
            r == ScopeId((var.0 + 1) as usize),
    {
        proof {
            assert(self.vars.len() == self@.len());
        }
        ScopeId(var.0 + 1)
    }

    /// The type of a variable, where it has one of its own.
    pub fn get_type(&self, var: VarId) -> (r: Option<ScalarType>)
        requires
            var.0 < self@.len(),
        ensures
            r == self@[var.0 as int].ty,
    {
        self.vars[var.0].ty
    }
}

/// Resolves names in a current scope.
#[derive(Debug)]
pub struct NameResolver {
    pub scope: ScopeId,
}

impl NameResolver {
    /// A resolver in the empty scope.
    pub fn new() -> (r: Self)
        ensures
            r.scope == ScopeId(EMPTY_SCOPE),
    {
        NameResolver { scope: ScopeId(EMPTY_SCOPE) }
    }

    pub fn current_scope(&self) -> (r: ScopeId)
        ensures
            r == self.scope,
    {
        self.scope
    }

    /// Go to a scope inside the current one.
    pub fn enter_descendant(&mut self, scope: ScopeId, variables: &Variables)
        requires
            is_descendant(variables@, scope, old(self).scope),
        ensures
            final(self).scope == scope,
    {
        self.scope = scope;
    }

    /// Go back to a scope that the current one lies in.
    pub fn return_to_ancestor(&mut self, scope: ScopeId, variables: &Variables)
        requires
            is_descendant(variables@, old(self).scope, scope),
        ensures
            final(self).scope == scope,
    {
        self.scope = scope;
    }

    /// Find the innermost variable of a name.
    pub fn resolve(&self, name: &Ident, variables: &Variables) -> (r: Option<VarId>)
        requires
            variables_wf(variables@),
            self.scope.0 <= variables@.len(),
        ensures
            r == resolve_spec(variables@, self.scope, name@),
    {
        let mut scope: usize = self.scope.0;
        while scope != 0
            invariant
                variables_wf(variables@),
                scope <= variables@.len(),
                resolve_spec(variables@, self.scope, name@) == resolve_spec(
                    variables@,
                    ScopeId(scope),
                    name@,
                ),
            decreases scope,
        {
            let v = &variables.vars[scope - 1];
            assert(variables@[scope - 1] == v@);
            let found = match &v.name {
                Some(n) => n.same(name),
                None => false,
            };
            if found {
                return Some(VarId(scope - 1));
            }
            scope = v.parent.0;
        }
        None
    }
}

/// Declaring more variables changes nothing in the scopes that there are.
pub proof fn lemma_resolve_monotone(
    vars: Seq<VarInfoV>,
    more: Seq<VarInfoV>,
    scope: ScopeId,
    name: Seq<char>,
)
    requires
        scope.0 <= vars.len() <= more.len(),
        variables_wf(vars),
        forall|i: int| 0 <= i < vars.len() ==> more[i] == vars[i],
    ensures
        resolve_spec(more, scope, name) == resolve_spec(vars, scope, name),
    decreases scope.0,
{
    if scope.0 != 0 {
        let v = vars[scope.0 - 1];
        if v.name != Some(name) {
            lemma_resolve_monotone(vars, more, v.parent, name);
        }
    }
}

/// Declaring more variables keeps the nesting of the scopes that there are.
pub proof fn lemma_descendant_monotone(
    vars: Seq<VarInfoV>,
    more: Seq<VarInfoV>,
    scope: ScopeId,
    ancestor: ScopeId,
)
    requires
        scope.0 <= vars.len() <= more.len(),
        variables_wf(vars),
        forall|i: int| 0 <= i < vars.len() ==> more[i] == vars[i],
    ensures
        is_descendant(more, scope, ancestor) == is_descendant(vars, scope, ancestor),
    decreases scope.0,
{
    if scope != ancestor && scope.0 != 0 {
        lemma_descendant_monotone(vars, more, vars[scope.0 - 1].parent, ancestor);
    }
}

/// A scope inside a scope inside a third one lies inside the third.
pub proof fn lemma_descendant_transitive(
    vars: Seq<VarInfoV>,
    inner: ScopeId,
    middle: ScopeId,
    outer: ScopeId,
)
    requires
        is_descendant(vars, inner, middle),
        is_descendant(vars, middle, outer),
    ensures
        is_descendant(vars, inner, outer),
    decreases inner.0,
{
    if inner != middle && inner.0 != 0 && inner.0 <= vars.len() {
        lemma_descendant_transitive(vars, vars[inner.0 - 1].parent, middle, outer);
    }
}

/// A name resolves to the variable that was just declared under it, whatever else has the name.
pub proof fn law_declared_name_resolves(
    vars: Seq<VarInfoV>,
    parent: ScopeId,
    name: Seq<char>,
    ty: Option<ScalarType>,
)
    requires
        vars.len() < usize::MAX,
    ensures
        resolve_spec(
            vars.push(VarInfoV { name: Some(name), ty, parent }),
            ScopeId((vars.len() + 1) as usize),
            name,
        ) == Some(VarId(vars.len() as usize)),
{
}

/// A declaration shadows only its own name: every other name still means what it meant in
/// the scope of the declaration.
pub proof fn law_declaration_keeps_other_names(
    vars: Seq<VarInfoV>,
    parent: ScopeId,
    name: Seq<char>,
    ty: Option<ScalarType>,
    other: Seq<char>,
)
    requires
        vars.len() < usize::MAX,
        variables_wf(vars),
        parent.0 <= vars.len(),
        other != name,
    ensures
        resolve_spec(
            vars.push(VarInfoV { name: Some(name), ty, parent }),
            ScopeId((vars.len() + 1) as usize),
            other,
        ) == resolve_spec(vars, parent, other),
{
    let more = vars.push(VarInfoV { name: Some(name), ty, parent });
    lemma_resolve_monotone(vars, more, parent, other);
}

} // verus!
