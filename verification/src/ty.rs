//! Types, and the store that interns them.
//!
//! A type is a node whose parts are referred to by the identity they were interned
//! under. The store holds every node once, so that two types have the same identity
//! exactly when they have the same shape.

use crate::span::Span;
use vstd::prelude::*;

verus! {

/// A primitive type.
#[derive(Clone, Copy, Debug, PartialEq, Eq, Structural)]
pub enum Prim {
    Bool,
    Nat,
    Int,
    Real,
    Char,
}

/// The identity of an interned type.
#[derive(Clone, Copy, Debug, PartialEq, Eq, Structural)]
pub struct TyId(pub usize);

/// The identity of a data type.
#[derive(Clone, Copy, Debug, PartialEq, Eq, Structural)]
pub struct DataId(pub usize);

/// The identity of a type alias.
#[derive(Clone, Copy, Debug, PartialEq, Eq, Structural)]
pub struct AliasId(pub usize);

/// The identity of a list of generic parameters.
#[derive(Clone, Copy, Debug, PartialEq, Eq, Structural)]
pub struct GenScopeId(pub usize);

/// A type, whose parts are interned types.
#[derive(Debug, PartialEq, Eq)]
pub enum Ty {
    /// Stands in for a type that could not be determined.
    Error,
    Prim(Prim),
    List(TyId),
    Tuple(Vec<TyId>),
    Func(TyId, TyId),
    /// A data type applied to arguments for its generic parameters.
    Data(DataId, Vec<TyId>),
    /// The generic parameter at a position of a list of generic parameters.
    Gen(usize, GenScopeId),
}

/// What a type node is, as a mathematical value.
pub enum TyView {
    Error,
    Prim(Prim),
    List(TyId),
    Tuple(Seq<TyId>),
    Func(TyId, TyId),
    Data(DataId, Seq<TyId>),
    Gen(usize, GenScopeId),
}

impl View for Ty {
    type V = TyView;

    open spec fn view(&self) -> TyView {
        match self {
            Ty::Error => TyView::Error,
            Ty::Prim(p) => TyView::Prim(*p),
            Ty::List(item) => TyView::List(*item),
            Ty::Tuple(fields) => TyView::Tuple(fields@),
            Ty::Func(i, o) => TyView::Func(*i, *o),
            Ty::Data(data, args) => TyView::Data(*data, args@),
            Ty::Gen(index, scope) => TyView::Gen(*index, *scope),
        }
    }
}

/// The whole of a type, with every part written out.
pub enum Shape {
    Error,
    /// An inference variable that nothing is known of.
    Unknown(nat),
    Prim(Prim),
    List(Box<Shape>),
    Tuple(Seq<Shape>),
    Func(Box<Shape>, Box<Shape>),
    Data(DataId, Seq<Shape>),
    Gen(usize, GenScopeId),
}

/// The parts of a node, in order.
pub open spec fn children(ty: TyView) -> Seq<TyId> {
    match ty {
        TyView::List(item) => seq![item],
        TyView::Tuple(fields) => fields,
        TyView::Func(i, o) => seq![i, o],
        TyView::Data(_, args) => args,
        _ => Seq::empty(),
    }
}

/// Whether every part of the node `ty` is interned below the position `limit`.
pub open spec fn parts_below(ty: TyView, limit: int) -> bool {
    forall|k: int| 0 <= k < children(ty).len() ==> (#[trigger] children(ty)[k]).0 < limit
}

/// Whether `tys` is what a store may hold: the parts of each node were interned before
/// the node, and no node occurs twice.
pub open spec fn store_wf(tys: Seq<TyView>) -> bool {
    &&& forall|i: int| 0 <= i < tys.len() ==> parts_below(#[trigger] tys[i], i)
    &&& forall|i: int, j: int| 0 <= i < j < tys.len() ==> tys[i] != tys[j]
}

/// The position of the node `ty` in `tys` at or after `from`, if it is there.
pub open spec fn position(tys: Seq<TyView>, ty: TyView, from: nat) -> Option<nat>
    decreases tys.len() - from,
{
    if from >= tys.len() {
        None
    } else if tys[from as int] == ty {
        Some(from)
    } else {
        position(tys, ty, from + 1)
    }
}

/// The identity that interning the node `ty` gives, and the store after it: the
/// position of the node where the store holds it, else the store grows by the node.
pub open spec fn interned(tys: Seq<TyView>, ty: TyView) -> (nat, Seq<TyView>) {
    match position(tys, ty, 0) {
        Some(i) => (i, tys),
        None => (tys.len(), tys.push(ty)),
    }
}

/// The shape of the type interned at the position `id`.
pub open spec fn shape_of(tys: Seq<TyView>, id: nat) -> Shape
    decreases id,
{
    if id >= tys.len() {
        Shape::Error
    } else {
        match tys[id as int] {
            TyView::Error => Shape::Error,
            TyView::Prim(p) => Shape::Prim(p),
            TyView::List(item) => if item.0 < id {
                Shape::List(Box::new(shape_of(tys, item.0 as nat)))
            } else {
                Shape::Error
            },
            TyView::Tuple(fields) => Shape::Tuple(
                Seq::new(
                    fields.len(),
                    |k: int|
                        if 0 <= k < fields.len() && fields[k].0 < id {
                            shape_of(tys, fields[k].0 as nat)
                        } else {
                            Shape::Error
                        },
                ),
            ),
            TyView::Func(i, o) => if i.0 < id && o.0 < id {
                Shape::Func(
                    Box::new(shape_of(tys, i.0 as nat)),
                    Box::new(shape_of(tys, o.0 as nat)),
                )
            } else {
                Shape::Error
            },
            TyView::Data(data, args) => Shape::Data(
                data,
                Seq::new(
                    args.len(),
                    |k: int|
                        if 0 <= k < args.len() && args[k].0 < id {
                            shape_of(tys, args[k].0 as nat)
                        } else {
                            Shape::Error
                        },
                ),
            ),
            TyView::Gen(index, scope) => Shape::Gen(index, scope),
        }
    }
}

/// Where `position` finds a node, the node is there, and nowhere before.
pub proof fn lemma_position(tys: Seq<TyView>, ty: TyView, from: nat)
    ensures
        match position(tys, ty, from) {
            Some(i) => from <= i < tys.len() && tys[i as int] == ty && forall|j: int|
                from <= j < i ==> tys[j] != ty,
            None => forall|j: int| from <= j < tys.len() ==> tys[j] != ty,
        },
    decreases tys.len() - from,
{
    if from < tys.len() && tys[from as int] != ty {
        lemma_position(tys, ty, from + 1);
    }
}

/// Interning keeps a store well formed, and the identity it gives is that of the
/// node.
pub proof fn lemma_interned_wf(tys: Seq<TyView>, ty: TyView)
    requires
        store_wf(tys),
        parts_below(ty, tys.len() as int),
    ensures
        store_wf(interned(tys, ty).1),
        interned(tys, ty).0 < interned(tys, ty).1.len(),
        interned(tys, ty).1[interned(tys, ty).0 as int] == ty,
        forall|i: int| 0 <= i < tys.len() ==> interned(tys, ty).1[i] == tys[i],
{
    lemma_position(tys, ty, 0);
}

/// In a well-formed store the shape of a type is made of the shapes of its parts.
pub proof fn lemma_shape_parts(tys: Seq<TyView>, id: nat)
    requires
        store_wf(tys),
        id < tys.len(),
    ensures
        match tys[id as int] {
            TyView::Error => shape_of(tys, id) == Shape::Error,
            TyView::Prim(p) => shape_of(tys, id) == Shape::Prim(p),
            TyView::List(item) => item.0 < id && shape_of(tys, id) == Shape::List(
                Box::new(shape_of(tys, item.0 as nat)),
            ),
            TyView::Tuple(fields) => {
                &&& shape_of(tys, id) is Tuple
                &&& shape_of(tys, id)->Tuple_0.len() == fields.len()
                &&& forall|k: int|
                    0 <= k < fields.len() ==> (#[trigger] fields[k]).0 < id && shape_of(
                        tys,
                        id,
                    )->Tuple_0[k] == shape_of(tys, fields[k].0 as nat)
            },
            TyView::Func(i, o) => i.0 < id && o.0 < id && shape_of(tys, id) == Shape::Func(
                Box::new(shape_of(tys, i.0 as nat)),
                Box::new(shape_of(tys, o.0 as nat)),
            ),
            TyView::Data(data, args) => {
                &&& shape_of(tys, id) is Data
                &&& shape_of(tys, id)->Data_0 == data
                &&& shape_of(tys, id)->Data_1.len() == args.len()
                &&& forall|k: int|
                    0 <= k < args.len() ==> (#[trigger] args[k]).0 < id && shape_of(
                        tys,
                        id,
                    )->Data_1[k] == shape_of(tys, args[k].0 as nat)
            },
            TyView::Gen(index, scope) => shape_of(tys, id) == Shape::Gen(index, scope),
        },
{
    let x = tys[id as int];
    assert(parts_below(x, id as int));
    match x {
        TyView::List(item) => {
            assert(children(x)[0] == item);
        },
        TyView::Tuple(fields) => {
            assert forall|k: int| 0 <= k < fields.len() implies (#[trigger] fields[k]).0 < id by {
                assert(children(x)[k] == fields[k]);
            }
        },
        TyView::Func(i, o) => {
            assert(children(x)[0] == i && children(x)[1] == o);
        },
        TyView::Data(data, args) => {
            assert forall|k: int| 0 <= k < args.len() implies (#[trigger] args[k]).0 < id by {
                assert(children(x)[k] == args[k]);
            }
        },
        _ => {},
    }
}

/// Two types of a store have the same shape only if they have the same identity.
pub proof fn lemma_shape_injective(tys: Seq<TyView>, a: nat, b: nat)
    requires
        store_wf(tys),
        a < tys.len(),
        b < tys.len(),
        shape_of(tys, a) == shape_of(tys, b),
    ensures
        a == b,
    decreases a + b,
{
    let x = tys[a as int];
    let y = tys[b as int];
    lemma_shape_parts(tys, a);
    lemma_shape_parts(tys, b);
    match x {
        TyView::List(item) => {
            let item2 = y->List_0;
            lemma_shape_injective(tys, item.0 as nat, item2.0 as nat);
        },
        TyView::Tuple(fields) => {
            let fields2 = y->Tuple_0;
            assert forall|k: int| 0 <= k < fields.len() implies fields[k] == fields2[k] by {
                assert(fields[k].0 < a && fields2[k].0 < b);
                lemma_shape_injective(tys, fields[k].0 as nat, fields2[k].0 as nat);
            }
            assert(fields =~= fields2);
        },
        TyView::Func(i, o) => {
            let i2 = y->Func_0;
            let o2 = y->Func_1;
            lemma_shape_injective(tys, i.0 as nat, i2.0 as nat);
            lemma_shape_injective(tys, o.0 as nat, o2.0 as nat);
        },
        TyView::Data(data, args) => {
            let args2 = y->Data_1;
            assert forall|k: int| 0 <= k < args.len() implies args[k] == args2[k] by {
                assert(args[k].0 < a && args2[k].0 < b);
                lemma_shape_injective(tys, args[k].0 as nat, args2[k].0 as nat);
            }
            assert(args =~= args2);
        },
        _ => {},
    }
    assert(x == y);
}

/// Whether the store `b` holds every type of the store `a`, under the same identity.
pub open spec fn extends(a: Seq<TyView>, b: Seq<TyView>) -> bool {
    a.len() <= b.len() && forall|i: int| 0 <= i < a.len() ==> a[i] == b[i]
}

/// A store that extends a store that extends a third extends the third.
pub proof fn lemma_extends_trans(a: Seq<TyView>, b: Seq<TyView>, c: Seq<TyView>)
    requires
        extends(a, b),
        extends(b, c),
    ensures
        extends(a, c),
{
    assert forall|i: int| 0 <= i < a.len() implies a[i] == c[i] by {
        assert(a[i] == b[i]);
    }
}

/// The types of a store keep their shape in a store that extends it.
pub proof fn lemma_shape_extends(a: Seq<TyView>, b: Seq<TyView>, id: nat)
    requires
        extends(a, b),
        id < a.len(),
    ensures
        shape_of(b, id) == shape_of(a, id),
    decreases id,
{
    match a[id as int] {
        TyView::List(item) => {
            if item.0 < id {
                lemma_shape_extends(a, b, item.0 as nat);
            }
        },
        TyView::Tuple(fields) => {
            assert forall|k: int| 0 <= k < fields.len() && fields[k].0 < id implies shape_of(
                b,
                fields[k].0 as nat,
            ) == shape_of(a, fields[k].0 as nat) by {
                lemma_shape_extends(a, b, fields[k].0 as nat);
            }
            assert(shape_of(b, id)->Tuple_0 =~= shape_of(a, id)->Tuple_0);
        },
        TyView::Func(i, o) => {
            if i.0 < id && o.0 < id {
                lemma_shape_extends(a, b, i.0 as nat);
                lemma_shape_extends(a, b, o.0 as nat);
            }
        },
        TyView::Data(data, args) => {
            assert forall|k: int| 0 <= k < args.len() && args[k].0 < id implies shape_of(
                b,
                args[k].0 as nat,
            ) == shape_of(a, args[k].0 as nat) by {
                lemma_shape_extends(a, b, args[k].0 as nat);
            }
            assert(shape_of(b, id)->Data_1 =~= shape_of(a, id)->Data_1);
        },
        _ => {},
    }
}

/// Interning two nodes one after the other gives the same identity exactly when the
/// nodes are the same, and exactly when the two types have the same shape.
pub proof fn lemma_intern_same_iff_same_shape(tys: Seq<TyView>, a: TyView, b: TyView)
    requires
        store_wf(tys),
        parts_below(a, tys.len() as int),
        parts_below(b, tys.len() as int),
    ensures
        ({
            let (ia, s1) = interned(tys, a);
            let (ib, s2) = interned(s1, b);
            &&& (ia == ib <==> a == b)
            &&& (ia == ib <==> shape_of(s2, ia) == shape_of(s2, ib))
        }),
{
    let (ia, s1) = interned(tys, a);
    lemma_interned_wf(tys, a);
    assert(parts_below(b, s1.len() as int));
    let (ib, s2) = interned(s1, b);
    lemma_interned_wf(s1, b);
    lemma_position(s1, b, 0);
    if shape_of(s2, ia) == shape_of(s2, ib) {
        lemma_shape_injective(s2, ia, ib);
    }
}

/// Whether the two vectors hold the same identities in the same order.
pub fn ids_same(a: &Vec<TyId>, b: &Vec<TyId>) -> (r: bool)
    ensures
        r == (a@ == b@),
{
    if a.len() != b.len() {
        return false;
    }
    let mut i: usize = 0;
    while i < a.len()
        invariant
            i <= a.len(),
            a.len() == b.len(),
            forall|j: int| 0 <= j < i ==> a[j] == b[j],
        decreases a.len() - i,
    {
        if a[i] != b[i] {
            return false;
        }
        i += 1;
    }
    assert(a@ =~= b@);
    true
}

/// A copy of the identities of `v`.
pub fn clone_ids(v: &Vec<TyId>) -> (r: Vec<TyId>)
    ensures
        r@ == v@,
{
    let mut out: Vec<TyId> = Vec::new();
    let mut i: usize = 0;
    while i < v.len()
        invariant
            i <= v.len(),
            out.len() == i,
            forall|j: int| 0 <= j < i ==> out[j] == v[j],
        decreases v.len() - i,
    {
        out.push(v[i]);
        i += 1;
    }
    assert(out@ =~= v@);
    out
}

impl Clone for Ty {
    fn clone(&self) -> (r: Ty)
        ensures
            r@ == self@,
    {
        match self {
            Ty::Error => Ty::Error,
            Ty::Prim(p) => Ty::Prim(*p),
            Ty::List(item) => Ty::List(*item),
            Ty::Tuple(fields) => Ty::Tuple(clone_ids(fields)),
            Ty::Func(i, o) => Ty::Func(*i, *o),
            Ty::Data(data, args) => Ty::Data(*data, clone_ids(args)),
            Ty::Gen(index, scope) => Ty::Gen(*index, *scope),
        }
    }
}

impl Ty {
    /// Whether `self` and `other` are the same node.
    pub fn same_as(&self, other: &Ty) -> (r: bool)
        ensures
            r == (self@ == other@),
    {
        match (self, other) {
            (Ty::Error, Ty::Error) => true,
            (Ty::Prim(a), Ty::Prim(b)) => *a == *b,
            (Ty::List(a), Ty::List(b)) => *a == *b,
            (Ty::Tuple(a), Ty::Tuple(b)) => ids_same(a, b),
            (Ty::Func(a, b), Ty::Func(c, d)) => *a == *c && *b == *d,
            (Ty::Data(a, xs), Ty::Data(b, ys)) => *a == *b && ids_same(xs, ys),
            (Ty::Gen(i, a), Ty::Gen(j, b)) => *i == *j && *a == *b,
            _ => false,
        }
    }
}

/// The store of interned types.
pub struct Types {
    tys: Vec<Ty>,
    spans: Vec<Span>,
}

impl View for Types {
    type V = Seq<TyView>;

    /// The nodes of the store, each at the position that is its identity.
    closed spec fn view(&self) -> Seq<TyView> {
        Seq::new(self.tys@.len(), |i: int| self.tys@[i]@)
    }
}

impl Types {
    /// For each type, the place in the source that first introduced it.
    pub closed spec fn spans(&self) -> Seq<Span> {
        self.spans@
    }

    /// Whether the store is well formed.
    pub open spec fn wf(&self) -> bool {
        store_wf(self@) && self.spans().len() == self@.len()
    }

    /// Whether `id` is the identity of a type of this store.
    pub open spec fn has(&self, id: TyId) -> bool {
        id.0 < self@.len()
    }

    /// The shape of the type `id`.
    pub open spec fn shape(&self, id: TyId) -> Shape {
        shape_of(self@, id.0 as nat)
    }

    /// A store that holds no type.
    pub fn new() -> (r: Types)
        ensures
            r.wf(),
            r@.len() == 0,
    {
        Types { tys: Vec::new(), spans: Vec::new() }
    }

    /// The number of types in the store.
    pub fn len(&self) -> (n: usize)
        ensures
            n == self@.len(),
    {
        self.tys.len()
    }

    /// The node of the type `id`.
    pub fn get(&self, id: TyId) -> (ty: &Ty)
        requires
            self.has(id),
        ensures
            ty@ == self@[id.0 as int],
    {
        &self.tys[id.0]
    }

    /// The place in the source that first introduced the type `id`.
    pub fn get_span(&self, id: TyId) -> (span: Span)
        requires
            self.wf(),
            self.has(id),
        ensures
            span == self.spans()[id.0 as int],
    {
        self.spans[id.0]
    }

    /// The place in the source that first introduced the type `id`, if the store
    /// holds a place for it.
    pub fn try_span(&self, id: TyId) -> (span: Option<Span>)
        ensures
            span == (if id.0 < self.spans().len() {
                Some(self.spans()[id.0 as int])
            } else {
                None
            }),
    {
        if id.0 < self.spans.len() {
            Some(self.spans[id.0])
        } else {
            None
        }
    }

    /// Whether every part of the node `ty` is a type of this store, so that the node
    /// can be interned.
    pub fn can_hold(&self, ty: &Ty) -> (r: bool)
        ensures
            r == parts_below(ty@, self@.len() as int),
    {
        let n = self.tys.len();
        match ty {
            Ty::List(item) => {
                assert(children(ty@)[0] == *item);
                item.0 < n
            },
            Ty::Func(i, o) => {
                assert(children(ty@)[0] == *i && children(ty@)[1] == *o);
                i.0 < n && o.0 < n
            },
            Ty::Tuple(fields) => Self::all_below(fields, n),
            Ty::Data(_, args) => Self::all_below(args, n),
            _ => true,
        }
    }

    /// Whether every identity of `ids` is less than `limit`.
    fn all_below(ids: &Vec<TyId>, limit: usize) -> (r: bool)
        ensures
            r == (forall|k: int| 0 <= k < ids@.len() ==> (#[trigger] ids@[k]).0 < limit),
    {
        let mut i: usize = 0;
        while i < ids.len()
            invariant
                i <= ids.len(),
                forall|k: int| 0 <= k < i ==> (#[trigger] ids@[k]).0 < limit,
            decreases ids.len() - i,
        {
            if ids[i].0 >= limit {
                return false;
            }
            i += 1;
        }
        true
    }

    /// Interns the node `ty`: gives the identity under which the store holds an equal
    /// node, or adds the node to the store, with `span` as the place that introduced
    /// it.
    pub fn intern(&mut self, ty: Ty, span: Span) -> (id: TyId)
        requires
            old(self).wf(),
            parts_below(ty@, old(self)@.len() as int),
        ensures
            final(self).wf(),
            (id.0 as nat, final(self)@) == interned(old(self)@, ty@),
            extends(old(self)@, final(self)@),
            final(self).has(id),
            final(self)@[id.0 as int] == ty@,
            final(self).spans() == (if position(old(self)@, ty@, 0) is Some {
                old(self).spans()
            } else {
                old(self).spans().push(span)
            }),
    {
        let mut i: usize = 0;
        while i < self.tys.len()
            invariant
                i <= self.tys.len(),
                *self == *old(self),
                self.wf(),
                position(self@, ty@, 0) == position(self@, ty@, i as nat),
            decreases self.tys.len() - i,
        {
            if self.tys[i].same_as(&ty) {
                return TyId(i);
            }
            i += 1;
        }
        proof {
            lemma_interned_wf(self@, ty@);
        }
        let ghost before = self@;
        self.tys.push(ty);
        self.spans.push(span);
        assert(self@ =~= before.push(ty@));
        TyId(i)
    }
}

} // verus!
