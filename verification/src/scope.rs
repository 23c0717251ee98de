//! Lexical scopes: what the resolver knows of the names in reach.
//!
//! A scope is a map from names to symbols; the scopes in reach form a stack,
//! innermost last. A scope is kept as the list of its bindings in the order
//! in which they were made, where a later binding of a name hides an earlier
//! one.

use crate::ast::{ident_view, ident_views, Ident, IdentView, Typed};
use vstd::prelude::*;
use vstd::string::*;

verus! {

/// What a name stands for.
#[derive(Debug, Clone)]
pub enum Symbol {
    Variable { initialized: bool },
    Function { params: Vec<Ident> },
}

/// The mathematical value of a [`Symbol`].
pub enum SymbolView {
    Variable { initialized: bool },
    Function { params: Seq<IdentView> },
}

impl View for Symbol {
    type V = SymbolView;

    open spec fn view(&self) -> SymbolView {
        match self {
            Symbol::Variable { initialized } => SymbolView::Variable { initialized: *initialized },
            Symbol::Function { params } => SymbolView::Function { params: ident_views(params@) },
        }
    }
}

/// One binding of a name in a scope.
#[derive(Debug, Clone)]
pub struct Binding {
    pub name: String,
    pub symbol: Symbol,
}

/// The value of a scope.
pub type ScopeView = Map<Seq<char>, SymbolView>;

/// The index of the last binding of `name`, if it is bound.
pub open spec fn last_binding(bindings: Seq<Binding>, name: Seq<char>) -> Option<int>
    decreases bindings.len(),
{
    if bindings.len() == 0 {
        None
    } else if bindings.last().name@ == name {
        Some(bindings.len() - 1)
    } else {
        last_binding(bindings.drop_last(), name)
    }
}

/// The scope that a list of bindings stands for.
pub open spec fn scope_view(bindings: Seq<Binding>) -> ScopeView {
    Map::new(
        |name: Seq<char>| last_binding(bindings, name) is Some,
        |name: Seq<char>| bindings[last_binding(bindings, name).unwrap()].symbol@,
    )
}

/// The stack of scopes that a stack of lists of bindings stands for.
pub open spec fn scopes_view(scopes: Seq<Vec<Binding>>) -> Seq<ScopeView> {
    scopes.map_values(|bindings: Vec<Binding>| scope_view(bindings@))
}

/// The symbol that `name` stands for: that of the innermost scope that binds
/// it.
pub open spec fn lookup(scopes: Seq<ScopeView>, name: Seq<char>) -> Option<SymbolView>
    decreases scopes.len(),
{
    if scopes.len() == 0 {
        None
    } else if scopes.last().contains_key(name) {
        Some(scopes.last()[name])
    } else {
        lookup(scopes.drop_last(), name)
    }
}

/// The stack of scopes with `name` bound to `symbol` in the innermost scope.
pub open spec fn declare(scopes: Seq<ScopeView>, name: Seq<char>, symbol: SymbolView) -> Seq<
    ScopeView,
> {
    scopes.update(scopes.len() - 1, scopes.last().insert(name, symbol))
}

/// The last binding of a name is a binding of that name.
pub proof fn lemma_last_binding(bindings: Seq<Binding>, name: Seq<char>)
    ensures
        last_binding(bindings, name) matches Some(j) ==> 0 <= j < bindings.len()
            && bindings[j].name@ == name,
    decreases bindings.len(),
{
    if bindings.len() > 0 && bindings.last().name@ != name {
        lemma_last_binding(bindings.drop_last(), name);
    }
}

/// One more binding makes the scope with one more name, or with another
/// symbol for a name that it had.
pub proof fn lemma_scope_push(bindings: Seq<Binding>, binding: Binding)
    ensures
        scope_view(bindings.push(binding)) == scope_view(bindings).insert(
            binding.name@,
            binding.symbol@,
        ),
{
    let longer = bindings.push(binding);
    assert(longer.drop_last() =~= bindings);
    assert forall|name: Seq<char>|
        (#[trigger] last_binding(longer, name)) == if binding.name@ == name {
            Some(bindings.len() as int)
        } else {
            last_binding(bindings, name)
        } by {}
    assert forall|name: Seq<char>| last_binding(bindings, name) is Some implies longer[(
    #[trigger] last_binding(bindings, name)).unwrap()] == bindings[last_binding(
        bindings,
        name,
    ).unwrap()] by {
        lemma_last_binding(bindings, name);
    }
    assert(scope_view(longer) =~= scope_view(bindings).insert(binding.name@, binding.symbol@));
}

/// A copy of a list of names.
pub fn clone_idents(idents: &Vec<Ident>) -> (copy: Vec<Ident>)
    ensures
        ident_views(copy@) == ident_views(idents@),
{
    let mut copy: Vec<Ident> = Vec::new();
    let mut i: usize = 0;
    while i < idents.len()
        invariant
            i <= idents@.len(),
            copy@.len() == i,
            forall|j: int|
                0 <= j < i ==> ident_view(#[trigger] copy@[j]) == ident_view(idents@[j]),
        decreases idents@.len() - i,
    {
        let ident = &idents[i];
        copy.push(Typed { node: ident.node.clone(), span: ident.span, type_id: ident.type_id });
        i += 1;
    }
    assert(ident_views(copy@) =~= ident_views(idents@));
    copy
}

/// The index of the last binding of `name` in `scope`, if it is bound there.
pub fn find_binding(scope: &Vec<Binding>, name: &String) -> (found: Option<usize>)
    ensures
        match found {
            Some(j) => last_binding(scope@, name@) == Some(j as int) && j < scope@.len(),
            None => last_binding(scope@, name@) is None,
        },
{
    let mut j: usize = scope.len();
    assert(scope@.take(j as int) =~= scope@);
    while j > 0
        invariant
            j <= scope@.len(),
            last_binding(scope@.take(j as int), name@) == last_binding(scope@, name@),
        decreases j,
    {
        let ghost front = scope@.take(j as int);
        j -= 1;
        assert(front.drop_last() =~= scope@.take(j as int));
        if scope[j].name == *name {
            return Some(j);
        }
    }
    None
}

} // verus!
