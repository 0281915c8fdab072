//! The registry of definitions.

use crate::data::{indexes, Duplicate};
use crate::span::{Ident, Span};
use crate::table::{table_entries, SymbolTable};
use crate::ty::{GenScopeId, TyId};
use vstd::prelude::*;

verus! {

/// The identity of a definition.
#[derive(Clone, Copy, Debug, PartialEq, Eq, Structural)]
pub struct DefId(pub usize);

/// A definition: its name, its generic parameters, the type it is said to have, and
/// the type that a reference to it has, once that is known.
#[derive(Clone, Copy, Debug, PartialEq, Eq, Structural)]
pub struct Def {
    pub name: Ident,
    pub span: Span,
    pub gen_scope: GenScopeId,
    pub hint: Option<TyId>,
    pub ty: Option<TyId>,
}

/// The registry of definitions.
pub struct Defs {
    defs: Vec<Def>,
    names: SymbolTable,
}

impl View for Defs {
    type V = Seq<Def>;

    /// The definitions, each at the position that is its identity.
    closed spec fn view(&self) -> Seq<Def> {
        self.defs@
    }
}

impl Defs {
    /// The names of the definitions.
    pub open spec fn names(&self) -> Seq<Ident> {
        Seq::new(self@.len(), |i: int| self@[i].name)
    }

    /// Whether the registry is well formed: the lookup table agrees with the list, so
    /// that no name is declared twice.
    pub closed spec fn wf(&self) -> bool {
        indexes(table_entries(self.names), self.names())
    }

    /// The definition named `name`, if there is one.
    pub open spec fn def_of(&self, name: Ident) -> Option<DefId> {
        def_at(self@, name)
    }

    /// A registry without definitions.
    pub fn new() -> (r: Defs)
        ensures
            r.wf(),
            r@.len() == 0,
    {
        Defs { defs: Vec::new(), names: SymbolTable::new() }
    }

    /// The number of definitions.
    pub fn len(&self) -> (n: usize)
        ensures
            n == self@.len(),
    {
        self.defs.len()
    }

    /// The definition named `name`, if there is one.
    pub fn lookup(&self, name: Ident) -> (r: Option<DefId>)
        requires
            self.wf(),
        ensures
            r == self.def_of(name),
            r matches Some(id) ==> id.0 < self@.len() && self@[id.0 as int].name == name,
    {
        match self.names.get(name.0) {
            Some(i) => {
                assert(self.names()[i as int] == name);
                proof {
                    let j = choose|j: int| 0 <= j < self@.len() && self@[j].name == name;
                    assert(self.names()[j] == name);
                    assert(j == i);
                }
                Some(DefId(i))
            },
            None => {
                assert forall|i: int| 0 <= i < self@.len() implies self@[i].name != name by {
                    assert(self.names()[i] == self@[i].name);
                }
                None
            },
        }
    }

    /// Registers the definition `name`, declared at `span`, with the generic
    /// parameters `gen_scope` and the type `hint` that it is said to have. A reference
    /// to it has that type. Fails if a definition of that name is declared.
    pub fn declare(&mut self, name: Ident, span: Span, gen_scope: GenScopeId, hint: Option<TyId>) -> (r:
        Result<DefId, Duplicate>)
        requires
            old(self).wf(),
        ensures
            final(self).wf(),
            match old(self).def_of(name) {
                Some(id) => r == Err::<DefId, Duplicate>(
                    Duplicate { name, old: old(self)@[id.0 as int].span, new: span },
                ) && final(self)@ == old(self)@,
                None => r == Ok::<DefId, Duplicate>(DefId(old(self)@.len() as usize)) && final(self)@
                    == old(self)@.push(Def { name, span, gen_scope, hint, ty: hint }),
            },
            r matches Ok(id) ==> id.0 == old(self)@.len(),
            match def_first(old(self)@, name, old(self)@.len()) {
                Some(s) => r == Err::<DefId, Duplicate>(Duplicate { name, old: s, new: span }),
                None => r is Ok,
            },
    {
        proof {
            lemma_def_first(self@, name, self@.len());
        }
        match self.lookup(name) {
            Some(id) => {
                proof {
                    let s = def_first(self@, name, self@.len())->0;
                    let i = choose|i: int|
                        0 <= i < self@.len() && self@[i].name == name && self@[i].span == s;
                    assert(self.names()[i] == name);
                    assert(self.names()[id.0 as int] == name);
                    assert(i == id.0);
                }
                Err(Duplicate { name, old: self.defs[id.0].span, new: span })
            },
            None => {
                let index = self.defs.len();
                let ghost names = self.names();
                self.defs.push(Def { name, span, gen_scope, hint, ty: hint });
                let _ = self.names.insert(name.0, index);
                proof {
                    assert(self.names() =~= names.push(name));
                    assert forall|i: int| 0 <= i < names.len() implies names[i] != name by {
                        assert(names[i] == old(self)@[i].name);
                    }
                }
                Ok(DefId(index))
            },
        }
    }

    /// The definition `id`.
    pub fn get(&self, id: DefId) -> (r: Def)
        requires
            id.0 < self@.len(),
        ensures
            r == self@[id.0 as int],
    {
        self.defs[id.0]
    }

    /// Sets the type that a reference to the definition `id` has.
    pub fn set_ty(&mut self, id: DefId, ty: Option<TyId>)
        requires
            old(self).wf(),
            id.0 < old(self)@.len(),
        ensures
            final(self).wf(),
            final(self)@ == old(self)@.update(
                id.0 as int,
                Def { ty, ..old(self)@[id.0 as int] },
            ),
    {
        let d = self.defs[id.0];
        self.defs.set(
            id.0,
            Def { name: d.name, span: d.span, gen_scope: d.gen_scope, hint: d.hint, ty },
        );
        proof {
            assert(self.names() =~= old(self).names());
        }
    }
}

/// The definition of `defs` that is named `name`, if there is one.
pub open spec fn def_at(defs: Seq<Def>, name: Ident) -> Option<DefId> {
    if exists|i: int| 0 <= i < defs.len() && defs[i].name == name {
        Some(DefId((choose|i: int| 0 <= i < defs.len() && defs[i].name == name) as usize))
    } else {
        None
    }
}

/// The place of the first of the first `upto` definitions `defs` that is named `n`.
pub open spec fn def_first(defs: Seq<Def>, n: Ident, upto: nat) -> Option<Span>
    decreases upto,
{
    if upto == 0 || upto > defs.len() {
        None
    } else {
        match def_first(defs, n, (upto - 1) as nat) {
            Some(s) => Some(s),
            None => if defs[upto - 1].name == n {
                Some(defs[upto - 1].span)
            } else {
                None
            },
        }
    }
}

/// What the first definitions hold for a name: its place, if one of them has the
/// name, and nothing, if none has.
pub proof fn lemma_def_first(defs: Seq<Def>, n: Ident, upto: nat)
    requires
        upto <= defs.len(),
    ensures
        match def_first(defs, n, upto) {
            Some(s) => exists|i: int| 0 <= i < upto && defs[i].name == n && defs[i].span == s,
            None => forall|i: int| 0 <= i < upto ==> defs[i].name != n,
        },
    decreases upto,
{
    if upto > 0 {
        lemma_def_first(defs, n, (upto - 1) as nat);
        match def_first(defs, n, (upto - 1) as nat) {
            Some(s) => {
                let i = choose|i: int| 0 <= i < upto - 1 && defs[i].name == n && defs[i].span == s;
                assert(0 <= i < upto && defs[i].name == n && defs[i].span == s);
            },
            None => {
                if defs[upto - 1].name == n {
                    assert(defs[upto - 1].name == n && defs[upto - 1].span == defs[upto - 1].span);
                }
            },
        }
    }
}

/// The place of the first definition of a name among the first definitions depends
/// on those definitions only.
pub proof fn lemma_def_first_same(a: Seq<Def>, b: Seq<Def>, n: Ident, upto: nat)
    requires
        upto <= a.len(),
        upto <= b.len(),
        forall|i: int| 0 <= i < upto ==> a[i] == b[i],
    ensures
        def_first(a, n, upto) == def_first(b, n, upto),
    decreases upto,
{
    if upto > 0 {
        lemma_def_first_same(a, b, n, (upto - 1) as nat);
    }
}

} // verus!
