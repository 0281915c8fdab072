//! The registry of data types, type aliases and their constructors.
//!
//! Names are registered first, each once; what a name stands for is filled in
//! afterwards, so that declarations may refer to one another in any order.

use crate::span::{Ident, Span};
use crate::table::{table_entries, SymbolTable};
use crate::ty::{AliasId, DataId, GenScopeId, TyId};
use vstd::prelude::*;

verus! {

/// What the name of a type stands for.
#[derive(Clone, Copy, Debug, PartialEq, Eq, Structural)]
pub enum TypeRef {
    Data(DataId),
    Alias(AliasId),
}

/// A declared name, with the place of its declaration.
#[derive(Clone, Copy, Debug, PartialEq, Eq, Structural)]
pub struct Named {
    pub name: Ident,
    pub span: Span,
}

/// A declaration that could not be registered, because its name is taken: the name,
/// the place of the earlier declaration, and the place of this one.
#[derive(Clone, Copy, Debug, PartialEq, Eq, Structural)]
pub struct Duplicate {
    pub name: Ident,
    pub old: Span,
    pub new: Span,
}

/// A data type: its name, its generic parameters and its constructors, in order.
#[derive(Debug, PartialEq, Eq)]
pub struct Data {
    pub name: Ident,
    pub span: Span,
    pub gen_scope: GenScopeId,
    /// The constructors, as positions in the registry's list of constructors.
    pub cons: Vec<usize>,
}

/// A constructor of a data type, with the types of its fields in terms of the
/// generic parameters of the data type.
#[derive(Debug, PartialEq, Eq)]
pub struct Cons {
    pub name: Ident,
    pub span: Span,
    pub data: DataId,
    pub fields: Vec<TyId>,
}

/// A type alias: its name, its generic parameters, and the type it stands for in
/// terms of them, once that is known.
#[derive(Clone, Copy, Debug, PartialEq, Eq, Structural)]
pub struct Alias {
    pub name: Ident,
    pub span: Span,
    pub gen_scope: GenScopeId,
    pub ty: Option<TyId>,
}

/// A declared type name and what it stands for.
#[derive(Clone, Copy, Debug, PartialEq, Eq, Structural)]
pub struct TypeEntry {
    pub name: Ident,
    pub span: Span,
    pub target: TypeRef,
}

/// Whether `table` maps exactly the names `names` to their positions; in particular
/// no name occurs twice among `names`.
pub open spec fn indexes(table: Map<u64, usize>, names: Seq<Ident>) -> bool {
    &&& forall|i: int|
        0 <= i < names.len() ==> table.contains_key((#[trigger] names[i]).0)
            && table[names[i].0] == i
    &&& forall|k: u64| #[trigger]
        table.contains_key(k) ==> table[k] < names.len() && names[table[k] as int].0 == k
}

/// The position of the first parameter of `params` before `limit` that is named
/// `name`.
pub open spec fn first_named(params: Seq<Named>, name: Ident, limit: int) -> Option<int>
    decreases limit,
{
    if limit <= 0 || limit > params.len() {
        None
    } else {
        match first_named(params, name, limit - 1) {
            Some(i) => Some(i),
            None => if params[limit - 1].name == name {
                Some(limit - 1)
            } else {
                None
            },
        }
    }
}

/// The parameters of `params` before `limit` that a list of generic parameters keeps:
/// those whose name no earlier parameter has.
pub open spec fn kept_params(params: Seq<Named>, limit: int) -> Seq<Named>
    decreases limit,
{
    if limit <= 0 || limit > params.len() {
        Seq::empty()
    } else if first_named(params, params[limit - 1].name, limit - 1) is Some {
        kept_params(params, limit - 1)
    } else {
        kept_params(params, limit - 1).push(params[limit - 1])
    }
}

/// The duplicates among the parameters of `params` before `limit`: each parameter
/// whose name an earlier parameter has, with the place of the first one of that name.
pub open spec fn dup_params(params: Seq<Named>, limit: int) -> Seq<Duplicate>
    decreases limit,
{
    if limit <= 0 || limit > params.len() {
        Seq::empty()
    } else {
        match first_named(params, params[limit - 1].name, limit - 1) {
            Some(i) => dup_params(params, limit - 1).push(
                Duplicate {
                    name: params[limit - 1].name,
                    old: params[i].span,
                    new: params[limit - 1].span,
                },
            ),
            None => dup_params(params, limit - 1),
        }
    }
}

/// The registry of data types, aliases, constructors and lists of generic parameters.
pub struct Datas {
    scopes: Vec<Vec<Named>>,
    datas: Vec<Data>,
    aliases: Vec<Alias>,
    conses: Vec<Cons>,
    types: Vec<TypeEntry>,
    type_names: SymbolTable,
    cons_names: SymbolTable,
}

impl Datas {
    /// The lists of generic parameters.
    pub closed spec fn scopes(&self) -> Seq<Seq<Named>> {
        Seq::new(self.scopes@.len(), |i: int| self.scopes@[i]@)
    }

    /// The data types.
    pub closed spec fn datas(&self) -> Seq<Data> {
        self.datas@
    }

    /// The aliases.
    pub closed spec fn aliases(&self) -> Seq<Alias> {
        self.aliases@
    }

    /// The constructors of all data types.
    pub closed spec fn conses(&self) -> Seq<Cons> {
        self.conses@
    }

    /// The declared type names, in the order of their declaration.
    pub closed spec fn types(&self) -> Seq<TypeEntry> {
        self.types@
    }

    /// The names of the declared types.
    pub open spec fn type_names(&self) -> Seq<Ident> {
        Seq::new(self.types().len(), |i: int| self.types()[i].name)
    }

    /// The names of the constructors.
    pub open spec fn cons_names(&self) -> Seq<Ident> {
        Seq::new(self.conses().len(), |i: int| self.conses()[i].name)
    }

    /// Whether the lookup tables agree with the lists.
    pub closed spec fn tables_ok(&self) -> bool {
        &&& indexes(table_entries(self.type_names), self.type_names())
        &&& indexes(table_entries(self.cons_names), self.cons_names())
    }

    /// Whether the registry is well formed: every name is declared once, and every
    /// identity that the registry mentions is one of its own.
    pub open spec fn wf(&self) -> bool {
        &&& self.tables_ok()
        &&& forall|i: int, j: int|
            0 <= i < j < self.types().len() ==> self.types()[i].name != self.types()[j].name
        &&& forall|i: int, j: int|
            0 <= i < j < self.conses().len() ==> self.conses()[i].name != self.conses()[j].name
        &&& forall|i: int|
            0 <= i < self.types().len() ==> match (#[trigger] self.types()[i]).target {
                TypeRef::Data(d) => d.0 < self.datas().len() && self.datas()[d.0 as int].name
                    == self.types()[i].name,
                TypeRef::Alias(a) => a.0 < self.aliases().len() && self.aliases()[a.0 as int].name
                    == self.types()[i].name,
            }
        &&& forall|i: int|
            0 <= i < self.datas().len() ==> (#[trigger] self.datas()[i]).gen_scope.0
                < self.scopes().len()
        &&& forall|i: int|
            0 <= i < self.aliases().len() ==> (#[trigger] self.aliases()[i]).gen_scope.0
                < self.scopes().len()
        &&& forall|i: int|
            0 <= i < self.conses().len() ==> (#[trigger] self.conses()[i]).data.0
                < self.datas().len()
    }

    /// What the type name `name` stands for, if it is declared.
    pub open spec fn type_of(&self, name: Ident) -> Option<TypeEntry> {
        if exists|i: int| 0 <= i < self.types().len() && self.types()[i].name == name {
            let i = choose|i: int| 0 <= i < self.types().len() && self.types()[i].name == name;
            Some(self.types()[i])
        } else {
            None
        }
    }

    /// The position of the constructor named `name`, if it is declared.
    pub open spec fn cons_of(&self, name: Ident) -> Option<int> {
        if exists|i: int| 0 <= i < self.conses().len() && self.conses()[i].name == name {
            Some(choose|i: int| 0 <= i < self.conses().len() && self.conses()[i].name == name)
        } else {
            None
        }
    }

    /// The place where the type name `name` is declared, if it is.
    pub open spec fn type_place(&self, name: Ident) -> Option<Span> {
        match self.type_of(name) {
            Some(e) => Some(e.span),
            None => None,
        }
    }

    /// The place where the constructor `name` is declared, if it is.
    pub open spec fn cons_place(&self, name: Ident) -> Option<Span> {
        match self.cons_of(name) {
            Some(i) => Some(self.conses()[i].span),
            None => None,
        }
    }

    /// A registry without declarations.
    pub fn new() -> (r: Datas)
        ensures
            r.wf(),
            r.scopes().len() == 0,
            r.datas().len() == 0,
            r.aliases().len() == 0,
            r.conses().len() == 0,
            r.types().len() == 0,
    {
        Datas {
            scopes: Vec::new(),
            datas: Vec::new(),
            aliases: Vec::new(),
            conses: Vec::new(),
            types: Vec::new(),
            type_names: SymbolTable::new(),
            cons_names: SymbolTable::new(),
        }
    }

    /// What the type name `name` stands for, if it is declared.
    pub fn lookup_type(&self, name: Ident) -> (r: Option<TypeEntry>)
        requires
            self.wf(),
        ensures
            r == self.type_of(name),
    {
        match self.type_names.get(name.0) {
            Some(i) => {
                assert(self.type_names()[i as int] == name);
                assert(self.types()[i as int].name == name);
                proof {
                    let j = choose|j: int|
                        0 <= j < self.types().len() && self.types()[j].name == name;
                    assert(j == i);
                }
                Some(self.types[i])
            },
            None => {
                assert forall|i: int| 0 <= i < self.types().len() implies self.types()[i].name
                    != name by {
                    assert(self.type_names()[i] == self.types()[i].name);
                }
                None
            },
        }
    }

    /// The position of the constructor named `name`, if it is declared.
    pub fn lookup_cons(&self, name: Ident) -> (r: Option<usize>)
        requires
            self.wf(),
        ensures
            match r {
                Some(i) => self.cons_of(name) == Some(i as int) && i < self.conses().len(),
                None => self.cons_of(name) is None,
            },
    {
        match self.cons_names.get(name.0) {
            Some(i) => {
                assert(self.cons_names()[i as int] == name);
                assert(self.conses()[i as int].name == name);
                proof {
                    let j = choose|j: int|
                        0 <= j < self.conses().len() && self.conses()[j].name == name;
                    assert(j == i);
                }
                Some(i)
            },
            None => {
                assert forall|i: int| 0 <= i < self.conses().len() implies self.conses()[i].name
                    != name by {
                    assert(self.cons_names()[i] == self.conses()[i].name);
                }
                None
            },
        }
    }

    /// The position of the first parameter of `params` before `limit` named `name`.
    fn find_named(params: &Vec<Named>, name: Ident, limit: usize) -> (r: Option<usize>)
        requires
            limit <= params@.len(),
        ensures
            match r {
                Some(i) => i < limit && first_named(params@, name, limit as int) == Some(i as int),
                None => first_named(params@, name, limit as int) is None,
            },
    {
        let mut i: usize = 0;
        while i < limit
            invariant
                i <= limit,
                limit <= params@.len(),
                first_named(params@, name, i as int) is None,
            decreases limit - i,
        {
            if params[i].name == name {
                proof {
                    Self::lemma_first_named_stays(params@, name, i as int + 1, limit as int);
                }
                return Some(i);
            }
            i += 1;
        }
        None
    }

    /// Once a parameter of a name is found, looking further finds the same one.
    proof fn lemma_first_named_stays(params: Seq<Named>, name: Ident, at: int, limit: int)
        requires
            0 <= at <= limit <= params.len(),
            first_named(params, name, at) is Some,
        ensures
            first_named(params, name, limit) == first_named(params, name, at),
        decreases limit - at,
    {
        if at < limit {
            Self::lemma_first_named_stays(params, name, at, limit - 1);
        }
    }

    /// Registers a list of generic parameters. A parameter whose name an earlier
    /// parameter of the list has is left out, and reported.
    pub fn declare_scope(&mut self, params: &Vec<Named>) -> (r: (GenScopeId, Vec<Duplicate>))
        requires
            old(self).wf(),
        ensures
            final(self).wf(),
            r.0.0 == old(self).scopes().len(),
            final(self).scopes() == old(self).scopes().push(
                kept_params(params@, params@.len() as int),
            ),
            r.1@ == dup_params(params@, params@.len() as int),
            final(self).datas() == old(self).datas(),
            final(self).aliases() == old(self).aliases(),
            final(self).conses() == old(self).conses(),
            final(self).types() == old(self).types(),
    {
        let mut kept: Vec<Named> = Vec::new();
        let mut dups: Vec<Duplicate> = Vec::new();
        let mut i: usize = 0;
        while i < params.len()
            invariant
                i <= params.len(),
                kept@ == kept_params(params@, i as int),
                dups@ == dup_params(params@, i as int),
            decreases params.len() - i,
        {
            match Self::find_named(params, params[i].name, i) {
                Some(j) => {
                    dups.push(Duplicate { name: params[i].name, old: params[j].span, new: params[i].span });
                },
                None => {
                    kept.push(params[i]);
                },
            }
            i += 1;
        }
        let id = GenScopeId(self.scopes.len());
        let ghost before = self.scopes();
        self.scopes.push(kept);
        proof {
            assert(self.scopes() =~= before.push(kept_params(params@, params@.len() as int)));
            assert(self.type_names() =~= old(self).type_names());
            assert(self.cons_names() =~= old(self).cons_names());
            assert forall|i: int| 0 <= i < self.datas().len() implies (
            #[trigger] self.datas()[i]).gen_scope.0 < self.scopes().len() by {
                assert(old(self).datas()[i].gen_scope.0 < before.len());
            }
            assert forall|i: int| 0 <= i < self.aliases().len() implies (
            #[trigger] self.aliases()[i]).gen_scope.0 < self.scopes().len() by {
                assert(old(self).aliases()[i].gen_scope.0 < before.len());
            }
        }
        (id, dups)
    }

    /// Registers the data type `name`, declared at `span`, with the generic parameters
    /// `gen_scope` and no constructor yet. Fails if a type of that name is declared.
    pub fn declare_data(&mut self, name: Ident, span: Span, gen_scope: GenScopeId) -> (r: Result<
        DataId,
        Duplicate,
    >)
        requires
            old(self).wf(),
            gen_scope.0 < old(self).scopes().len(),
        ensures
            final(self).wf(),
            final(self).scopes() == old(self).scopes(),
            final(self).aliases() == old(self).aliases(),
            final(self).conses() == old(self).conses(),
            match old(self).type_of(name) {
                Some(e) => r == Err::<DataId, Duplicate>(Duplicate { name, old: e.span, new: span })
                    && final(self).datas() == old(self).datas() && final(self).types() == old(self).types(),
                None => {
                    &&& r == Ok::<DataId, Duplicate>(DataId(old(self).datas().len() as usize))
                    &&& final(self).types() == old(self).types().push(
                        TypeEntry {
                            name,
                            span,
                            target: TypeRef::Data(DataId(old(self).datas().len() as usize)),
                        },
                    )
                    &&& final(self).datas().len() == old(self).datas().len() + 1
                    &&& final(self).datas().subrange(0, old(self).datas().len() as int) == old(self).datas()
                    &&& final(self).datas().last().name == name
                    &&& final(self).datas().last().span == span
                    &&& final(self).datas().last().gen_scope == gen_scope
                    &&& final(self).datas().last().cons@.len() == 0
                },
            },
            r matches Ok(id) ==> id.0 == old(self).datas().len(),
    {
        match self.lookup_type(name) {
            Some(e) => Err(Duplicate { name, old: e.span, new: span }),
            None => {
                let id = DataId(self.datas.len());
                let index = self.types.len();
                let ghost names = self.type_names();
                let ghost datas = self.datas();
                self.datas.push(Data { name, span, gen_scope, cons: Vec::new() });
                self.types.push(TypeEntry { name, span, target: TypeRef::Data(id) });
                let _ = self.type_names.insert(name.0, index);
                proof {
                    assert(self.cons_names() =~= old(self).cons_names());
                    assert forall|i: int| 0 <= i < self.datas().len() implies (
                    #[trigger] self.datas()[i]).gen_scope.0 < self.scopes().len() by {
                        if i < old(self).datas().len() {
                            assert(old(self).datas()[i].gen_scope.0 < old(self).scopes().len());
                        }
                    }
                    assert forall|i: int| 0 <= i < self.aliases().len() implies (
                    #[trigger] self.aliases()[i]).gen_scope.0 < self.scopes().len() by {
                        assert(old(self).aliases()[i].gen_scope.0 < old(self).scopes().len());
                    }
                    assert(self.type_names() =~= names.push(name));
                    assert(self.datas().subrange(0, datas.len() as int) =~= datas);
                    assert forall|i: int| 0 <= i < names.len() implies names[i] != name by {
                        assert(names[i] == old(self).types()[i].name);
                    }
                }
                Ok(id)
            },
        }
    }

    /// Registers the alias `name`, declared at `span`, with the generic parameters
    /// `gen_scope`; what it stands for is not known yet. Fails if a type of that name
    /// is declared.
    pub fn declare_alias(&mut self, name: Ident, span: Span, gen_scope: GenScopeId) -> (r: Result<
        AliasId,
        Duplicate,
    >)
        requires
            old(self).wf(),
            gen_scope.0 < old(self).scopes().len(),
        ensures
            final(self).wf(),
            final(self).scopes() == old(self).scopes(),
            final(self).datas() == old(self).datas(),
            final(self).conses() == old(self).conses(),
            match old(self).type_of(name) {
                Some(e) => r == Err::<AliasId, Duplicate>(Duplicate { name, old: e.span, new: span })
                    && final(self).aliases() == old(self).aliases() && final(self).types() == old(self).types(),
                None => {
                    &&& r == Ok::<AliasId, Duplicate>(AliasId(old(self).aliases().len() as usize))
                    &&& final(self).types() == old(self).types().push(
                        TypeEntry {
                            name,
                            span,
                            target: TypeRef::Alias(AliasId(old(self).aliases().len() as usize)),
                        },
                    )
                    &&& final(self).aliases() == old(self).aliases().push(
                        Alias { name, span, gen_scope, ty: None },
                    )
                },
            },
            r matches Ok(id) ==> id.0 == old(self).aliases().len(),
    {
        match self.lookup_type(name) {
            Some(e) => Err(Duplicate { name, old: e.span, new: span }),
            None => {
                let id = AliasId(self.aliases.len());
                let index = self.types.len();
                let ghost names = self.type_names();
                self.aliases.push(Alias { name, span, gen_scope, ty: None });
                self.types.push(TypeEntry { name, span, target: TypeRef::Alias(id) });
                let _ = self.type_names.insert(name.0, index);
                proof {
                    assert(self.cons_names() =~= old(self).cons_names());
                    assert forall|i: int| 0 <= i < self.datas().len() implies (
                    #[trigger] self.datas()[i]).gen_scope.0 < self.scopes().len() by {
                        assert(old(self).datas()[i].gen_scope.0 < old(self).scopes().len());
                    }
                    assert forall|i: int| 0 <= i < self.aliases().len() implies (
                    #[trigger] self.aliases()[i]).gen_scope.0 < self.scopes().len() by {
                        if i < old(self).aliases().len() {
                            assert(old(self).aliases()[i].gen_scope.0 < old(self).scopes().len());
                        }
                    }
                    assert(self.type_names() =~= names.push(name));
                    assert forall|i: int| 0 <= i < names.len() implies names[i] != name by {
                        assert(names[i] == old(self).types()[i].name);
                    }
                }
                Ok(id)
            },
        }
    }

    /// Registers the constructor `name` of the data type `data`, declared at `span`,
    /// with no fields yet. Fails if a constructor of that name is declared.
    pub fn declare_cons(&mut self, data: DataId, name: Ident, span: Span) -> (r: Result<
        usize,
        Duplicate,
    >)
        requires
            old(self).wf(),
            data.0 < old(self).datas().len(),
        ensures
            final(self).wf(),
            final(self).scopes() == old(self).scopes(),
            final(self).aliases() == old(self).aliases(),
            final(self).types() == old(self).types(),
            final(self).datas().len() == old(self).datas().len(),
            forall|i: int|
                0 <= i < old(self).datas().len() ==> {
                    &&& (#[trigger] final(self).datas()[i]).name == old(self).datas()[i].name
                    &&& final(self).datas()[i].span == old(self).datas()[i].span
                    &&& final(self).datas()[i].gen_scope == old(self).datas()[i].gen_scope
                },
            match old(self).cons_of(name) {
                Some(i) => r == Err::<usize, Duplicate>(
                    Duplicate { name, old: old(self).conses()[i].span, new: span },
                ) && final(self).conses() == old(self).conses() && final(self).datas() == old(self).datas(),
                None => {
                    &&& r == Ok::<usize, Duplicate>(old(self).conses().len() as usize)
                    &&& final(self).conses().len() == old(self).conses().len() + 1
                    &&& final(self).conses().subrange(0, old(self).conses().len() as int) == old(self).conses()
                    &&& final(self).conses().last().name == name
                    &&& final(self).conses().last().span == span
                    &&& final(self).conses().last().data == data
                    &&& final(self).conses().last().fields@.len() == 0
                    &&& final(self).datas()[data.0 as int].cons@ == old(self).datas()[data.0 as int].cons@.push(
                        old(self).conses().len() as usize,
                    )
                    &&& forall|i: int|
                        0 <= i < old(self).datas().len() && i != data.0 ==> final(self).datas()[i]
                            == old(self).datas()[i]
                },
            },
            r matches Ok(c) ==> c == old(self).conses().len(),
    {
        match self.lookup_cons(name) {
            Some(i) => Err(Duplicate { name, old: self.conses[i].span, new: span }),
            None => {
                let index = self.conses.len();
                let ghost names = self.cons_names();
                let ghost conses = self.conses();
                let ghost datas = self.datas();
                let entry = &self.datas[data.0];
                let mut list: Vec<usize> = Vec::new();
                let mut k: usize = 0;
                while k < entry.cons.len()
                    invariant
                        k <= entry.cons.len(),
                        list@ == entry.cons@.subrange(0, k as int),
                    decreases entry.cons.len() - k,
                {
                    list.push(entry.cons[k]);
                    assert(list@ =~= entry.cons@.subrange(0, k + 1));
                    k += 1;
                }
                assert(list@ =~= entry.cons@);
                list.push(index);
                let updated = Data {
                    name: entry.name,
                    span: entry.span,
                    gen_scope: entry.gen_scope,
                    cons: list,
                };
                self.datas.set(data.0, updated);
                self.conses.push(Cons { name, span, data, fields: Vec::new() });
                let _ = self.cons_names.insert(name.0, index);
                proof {
                    assert(self.cons_names() =~= names.push(name));
                    assert(self.conses().subrange(0, conses.len() as int) =~= conses);
                    assert forall|i: int| 0 <= i < names.len() implies names[i] != name by {
                        assert(names[i] == old(self).conses()[i].name);
                    }
                    assert(self.type_names() =~= old(self).type_names());
                    assert forall|i: int| 0 <= i < self.conses().len() implies (
                    #[trigger] self.conses()[i]).data.0 < self.datas().len() by {
                        if i < conses.len() {
                            assert(self.conses()[i] == conses[i]);
                        }
                    }
                    assert forall|i: int, j: int|
                        0 <= i < j < self.conses().len() implies self.conses()[i].name
                        != self.conses()[j].name by {
                        assert(self.conses()[i] == conses[i]);
                        if j < conses.len() {
                            assert(self.conses()[j] == conses[j]);
                        } else {
                            assert(names[i] == conses[i].name);
                        }
                    }
                }
                Ok(index)
            },
        }
    }

    /// Sets the types of the fields of the constructor at the position `cons`.
    pub fn define_cons(&mut self, cons: usize, fields: Vec<TyId>)
        requires
            old(self).wf(),
            cons < old(self).conses().len(),
        ensures
            final(self).wf(),
            final(self).scopes() == old(self).scopes(),
            final(self).aliases() == old(self).aliases(),
            final(self).types() == old(self).types(),
            final(self).datas() == old(self).datas(),
            final(self).conses().len() == old(self).conses().len(),
            final(self).conses()[cons as int].fields@ == fields@,
            final(self).conses()[cons as int].name == old(self).conses()[cons as int].name,
            final(self).conses()[cons as int].span == old(self).conses()[cons as int].span,
            final(self).conses()[cons as int].data == old(self).conses()[cons as int].data,
            forall|i: int|
                0 <= i < old(self).conses().len() && i != cons ==> final(self).conses()[i] == old(self).conses()[i],
    {
        let entry = &self.conses[cons];
        let updated = Cons { name: entry.name, span: entry.span, data: entry.data, fields };
        let ghost names = self.cons_names();
        self.conses.set(cons, updated);
        proof {
            assert(self.cons_names() =~= names);
            assert(self.type_names() =~= old(self).type_names());
        }
    }

    /// Sets the type that the alias `alias` stands for.
    pub fn define_alias(&mut self, alias: AliasId, ty: TyId)
        requires
            old(self).wf(),
            alias.0 < old(self).aliases().len(),
        ensures
            final(self).wf(),
            final(self).scopes() == old(self).scopes(),
            final(self).conses() == old(self).conses(),
            final(self).types() == old(self).types(),
            final(self).datas() == old(self).datas(),
            final(self).aliases() == old(self).aliases().update(
                alias.0 as int,
                Alias { ty: Some(ty), ..old(self).aliases()[alias.0 as int] },
            ),
    {
        let entry = self.aliases[alias.0];
        self.aliases.set(
            alias.0,
            Alias { name: entry.name, span: entry.span, gen_scope: entry.gen_scope, ty: Some(ty) },
        );
        proof {
            assert(self.type_names() =~= old(self).type_names());
            assert(self.cons_names() =~= old(self).cons_names());
            assert(self.aliases() =~= old(self).aliases().update(
                alias.0 as int,
                Alias { ty: Some(ty), ..old(self).aliases()[alias.0 as int] },
            ));
            assert forall|i: int| 0 <= i < self.aliases().len() implies (
            #[trigger] self.aliases()[i]).gen_scope.0 < self.scopes().len() by {
                assert(old(self).aliases()[i].gen_scope.0 < self.scopes().len());
            }
            assert forall|i: int| 0 <= i < self.datas().len() implies (
            #[trigger] self.datas()[i]).gen_scope.0 < self.scopes().len() by {
                assert(old(self).datas()[i].gen_scope.0 < old(self).scopes().len());
            }
            assert forall|i: int| 0 <= i < self.types().len() implies match (
            #[trigger] self.types()[i]).target {
                TypeRef::Data(d) => d.0 < self.datas().len() && self.datas()[d.0 as int].name
                    == self.types()[i].name,
                TypeRef::Alias(a) => a.0 < self.aliases().len() && self.aliases()[a.0 as int].name
                    == self.types()[i].name,
            } by {
                match old(self).types()[i].target {
                    TypeRef::Data(d) => {},
                    TypeRef::Alias(a) => {
                        assert(old(self).aliases()[a.0 as int].name == self.types()[i].name);
                    },
                }
            }
        }
    }

    /// The number of data types.
    pub fn data_count(&self) -> (n: usize)
        ensures
            n == self.datas().len(),
    {
        self.datas.len()
    }

    /// The number of aliases.
    pub fn alias_count(&self) -> (n: usize)
        ensures
            n == self.aliases().len(),
    {
        self.aliases.len()
    }

    /// The number of constructors.
    pub fn cons_count(&self) -> (n: usize)
        ensures
            n == self.conses().len(),
    {
        self.conses.len()
    }

    /// The number of lists of generic parameters.
    pub fn scope_count(&self) -> (n: usize)
        ensures
            n == self.scopes().len(),
    {
        self.scopes.len()
    }

    /// The data type `id`.
    pub fn get_data(&self, id: DataId) -> (r: &Data)
        requires
            id.0 < self.datas().len(),
        ensures
            *r == self.datas()[id.0 as int],
    {
        &self.datas[id.0]
    }

    /// The constructor at the position `index`.
    pub fn get_cons(&self, index: usize) -> (r: &Cons)
        requires
            index < self.conses().len(),
        ensures
            *r == self.conses()[index as int],
    {
        &self.conses[index]
    }

    /// The alias `id`.
    pub fn get_alias(&self, id: AliasId) -> (r: Alias)
        requires
            id.0 < self.aliases().len(),
        ensures
            r == self.aliases()[id.0 as int],
    {
        self.aliases[id.0]
    }

    /// The place where the alias `id` is declared.
    pub fn get_alias_span(&self, id: AliasId) -> (r: Span)
        requires
            id.0 < self.aliases().len(),
        ensures
            r == self.aliases()[id.0 as int].span,
    {
        self.aliases[id.0].span
    }

    /// The generic parameters of the list `id`.
    pub fn get_scope(&self, id: GenScopeId) -> (r: &Vec<Named>)
        requires
            id.0 < self.scopes().len(),
        ensures
            r@ == self.scopes()[id.0 as int],
    {
        &self.scopes[id.0]
    }
}

/// After a type name is declared, it is declared at its place, and every other name
/// is declared where it was.
pub proof fn lemma_type_place_push(a: Datas, b: Datas, e: TypeEntry, n: Ident)
    requires
        a.wf(),
        b.wf(),
        b.types() == a.types().push(e),
    ensures
        b.type_place(n) == (if n == e.name {
            Some(e.span)
        } else {
            a.type_place(n)
        }),
        b.type_of(n) == (if n == e.name {
            Some(e)
        } else {
            a.type_of(n)
        }),
{
    let ta = a.types();
    let tb = b.types();
    let last = ta.len() as int;
    assert(tb[last] == e);
    if n == e.name {
        let j = choose|j: int| 0 <= j < tb.len() && tb[j].name == n;
        if j < last {
            assert(tb[j].name != tb[last].name);
        }
    } else if exists|i: int| 0 <= i < tb.len() && tb[i].name == n {
        let jb = choose|i: int| 0 <= i < tb.len() && tb[i].name == n;
        assert(jb < last);
        assert(ta[jb] == tb[jb]);
        let ja = choose|i: int| 0 <= i < ta.len() && ta[i].name == n;
        assert(tb[ja] == ta[ja]);
        if ja < jb {
            assert(tb[ja].name != tb[jb].name);
        }
        if jb < ja {
            assert(tb[jb].name != tb[ja].name);
        }
    } else {
        assert forall|i: int| 0 <= i < ta.len() implies ta[i].name != n by {
            assert(tb[i] == ta[i]);
        }
    }
}

/// After a constructor is declared, it is declared at its place, and every other
/// constructor is declared where it was.
pub proof fn lemma_cons_place_push(a: Datas, b: Datas, n: Ident)
    requires
        a.wf(),
        b.wf(),
        b.conses().len() == a.conses().len() + 1,
        b.conses().subrange(0, a.conses().len() as int) == a.conses(),
    ensures
        b.cons_place(n) == (if n == b.conses().last().name {
            Some(b.conses().last().span)
        } else {
            a.cons_place(n)
        }),
{
    let ca = a.conses();
    let cb = b.conses();
    let last = ca.len() as int;
    assert forall|i: int| 0 <= i < last implies cb[i] == ca[i] by {
        assert(cb.subrange(0, last)[i] == cb[i]);
    }
    if n == cb[last].name {
        let j = choose|j: int| 0 <= j < cb.len() && cb[j].name == n;
        if j < last {
            assert(cb[j].name != cb[last].name);
        }
    } else if exists|i: int| 0 <= i < cb.len() && cb[i].name == n {
        let jb = choose|i: int| 0 <= i < cb.len() && cb[i].name == n;
        assert(jb < last);
        assert(ca[jb] == cb[jb]);
        let ja = choose|i: int| 0 <= i < ca.len() && ca[i].name == n;
        assert(cb[ja] == ca[ja]);
        if ja < jb {
            assert(cb[ja].name != cb[jb].name);
        }
        if jb < ja {
            assert(cb[jb].name != cb[ja].name);
        }
    } else {
        assert forall|i: int| 0 <= i < ca.len() implies ca[i].name != n by {
            assert(cb[i] == ca[i]);
        }
    }
}

/// The place of the first of the first `upto` type names `types` that is `n`.
pub open spec fn type_first(types: Seq<TypeEntry>, n: Ident, upto: nat) -> Option<Span>
    decreases upto,
{
    if upto == 0 || upto > types.len() {
        None
    } else {
        match type_first(types, n, (upto - 1) as nat) {
            Some(s) => Some(s),
            None => if types[upto - 1].name == n {
                Some(types[upto - 1].span)
            } else {
                None
            },
        }
    }
}

/// The place of the first of the first `upto` constructors `conses` that is named `n`.
pub open spec fn cons_first(conses: Seq<Cons>, n: Ident, upto: nat) -> Option<Span>
    decreases upto,
{
    if upto == 0 || upto > conses.len() {
        None
    } else {
        match cons_first(conses, n, (upto - 1) as nat) {
            Some(s) => Some(s),
            None => if conses[upto - 1].name == n {
                Some(conses[upto - 1].span)
            } else {
                None
            },
        }
    }
}

/// What the first type names hold for a name: its place, if one of them is the name,
/// and nothing, if none is.
pub proof fn lemma_type_first(types: Seq<TypeEntry>, n: Ident, upto: nat)
    requires
        upto <= types.len(),
    ensures
        match type_first(types, n, upto) {
            Some(s) => exists|i: int| 0 <= i < upto && types[i].name == n && types[i].span == s,
            None => forall|i: int| 0 <= i < upto ==> types[i].name != n,
        },
    decreases upto,
{
    if upto > 0 {
        lemma_type_first(types, n, (upto - 1) as nat);
        match type_first(types, n, (upto - 1) as nat) {
            Some(s) => {
                let i = choose|i: int| 0 <= i < upto - 1 && types[i].name == n && types[i].span == s;
                assert(0 <= i < upto && types[i].name == n && types[i].span == s);
            },
            None => {
                if types[upto - 1].name == n {
                    assert(types[upto - 1].name == n && types[upto - 1].span == types[upto - 1].span);
                }
            },
        }
    }
}

/// What the first constructors hold for a name: its place, if one of them has the
/// name, and nothing, if none has.
pub proof fn lemma_cons_first(conses: Seq<Cons>, n: Ident, upto: nat)
    requires
        upto <= conses.len(),
    ensures
        match cons_first(conses, n, upto) {
            Some(s) => exists|i: int| 0 <= i < upto && conses[i].name == n && conses[i].span == s,
            None => forall|i: int| 0 <= i < upto ==> conses[i].name != n,
        },
    decreases upto,
{
    if upto > 0 {
        lemma_cons_first(conses, n, (upto - 1) as nat);
        match cons_first(conses, n, (upto - 1) as nat) {
            Some(s) => {
                let i = choose|i: int|
                    0 <= i < upto - 1 && conses[i].name == n && conses[i].span == s;
                assert(0 <= i < upto && conses[i].name == n && conses[i].span == s);
            },
            None => {
                if conses[upto - 1].name == n {
                    assert(conses[upto - 1].name == n && conses[upto - 1].span
                        == conses[upto - 1].span);
                }
            },
        }
    }
}

/// In a registry the place where a name is declared is the place of the first
/// declaration of the name, for types and for constructors.
pub proof fn lemma_places(datas: Datas, n: Ident)
    requires
        datas.wf(),
    ensures
        datas.type_place(n) == type_first(datas.types(), n, datas.types().len()),
        datas.cons_place(n) == cons_first(datas.conses(), n, datas.conses().len()),
{
    let ts = datas.types();
    lemma_type_first(ts, n, ts.len());
    match type_first(ts, n, ts.len()) {
        Some(s) => {
            let i = choose|i: int| 0 <= i < ts.len() && ts[i].name == n && ts[i].span == s;
            assert(ts[i].name == n);
            let j = choose|j: int| 0 <= j < ts.len() && ts[j].name == n;
            if i < j {
                assert(ts[i].name != ts[j].name);
            }
            if j < i {
                assert(ts[j].name != ts[i].name);
            }
        },
        None => {},
    }
    let cs = datas.conses();
    lemma_cons_first(cs, n, cs.len());
    match cons_first(cs, n, cs.len()) {
        Some(s) => {
            let i = choose|i: int| 0 <= i < cs.len() && cs[i].name == n && cs[i].span == s;
            assert(cs[i].name == n);
            let j = choose|j: int| 0 <= j < cs.len() && cs[j].name == n;
            if i < j {
                assert(cs[i].name != cs[j].name);
            }
            if j < i {
                assert(cs[j].name != cs[i].name);
            }
        },
        None => {},
    }
}

/// The place of the first constructor of a name depends on the names and places of
/// the constructors only.
pub proof fn lemma_cons_first_same(a: Seq<Cons>, b: Seq<Cons>, n: Ident, upto: nat)
    requires
        upto <= a.len(),
        upto <= b.len(),
        forall|c: int|
            0 <= c < upto ==> (#[trigger] b[c]).name == a[c].name && b[c].span == a[c].span,
    ensures
        cons_first(b, n, upto) == cons_first(a, n, upto),
    decreases upto,
{
    if upto > 0 {
        lemma_cons_first_same(a, b, n, (upto - 1) as nat);
    }
}

} // verus!
