//! From types as they are written to interned types.
//!
//! A name stands for a generic parameter in scope, a data type, or an alias. An alias
//! is replaced, wherever it is mentioned, by the type it stands for, with the
//! arguments of the mention in place of its parameters. An alias is never expanded
//! inside its own expansion: such a mention is an error.

use crate::data::{Datas, Named, TypeRef};
use crate::hir::{AliasDecl, SrcNode, TypeExpr, TypeKind};
use crate::span::{Ident, Span};
use crate::ty::{
    extends, lemma_extends_trans, lemma_shape_extends, lemma_shape_parts, shape_of, AliasId,
    Shape, Ty, TyId, TyView, Types,
};
use vstd::prelude::*;

verus! {

/// Why a written type does not stand for a type.
#[derive(Clone, Copy, Debug, PartialEq, Eq)]
pub enum ElabError {
    /// The name is not declared.
    NoSuchData(SrcNode<Ident>),
    /// The mention and the number of arguments it gives; the declaration and the
    /// number of parameters it has.
    WrongNumberOfGenerics(Span, usize, Span, usize),
    /// The alias is mentioned, at the span, inside its own expansion.
    RecursiveAlias(AliasId, Span),
}

/// Whether each alias has the declaration of its target among `decls`.
pub open spec fn sources_ok(decls: Seq<AliasDecl>, index: Seq<usize>) -> bool {
    forall|a: int| 0 <= a < index.len() ==> (#[trigger] index[a]) < decls.len()
}

/// The type that the alias `a` stands for, as it is written.
pub open spec fn target_of(decls: Seq<AliasDecl>, index: Seq<usize>, a: AliasId) -> TypeExpr {
    decls[index[a.0 as int] as int].ty
}

/// The first shape that `env` gives for `name`, at or after `from`.
pub open spec fn env_find(env: Seq<(Ident, Shape)>, name: Ident, from: nat) -> Option<Shape>
    decreases env.len() - from,
{
    if from >= env.len() {
        None
    } else if env[from as int].0 == name {
        Some(env[from as int].1)
    } else {
        env_find(env, name, from + 1)
    }
}

/// The generic parameters of what `target` stands for.
pub open spec fn params_of(datas: Datas, target: TypeRef) -> Seq<Named> {
    match target {
        TypeRef::Data(d) => datas.scopes()[datas.datas()[d.0 as int].gen_scope.0 as int],
        TypeRef::Alias(a) => datas.scopes()[datas.aliases()[a.0 as int].gen_scope.0 as int],
    }
}

/// The parameters `params`, each with the shape at its position in `shapes`.
pub open spec fn bound_env(params: Seq<Named>, shapes: Seq<Shape>) -> Seq<(Ident, Shape)> {
    Seq::new(params.len(), |k: int| (params[k].name, shapes[k]))
}

/// Whether the alias `a` may be expanded while the aliases `active` are.
pub open spec fn enters(index: Seq<usize>, a: AliasId, active: Seq<AliasId>) -> bool {
    a.0 < index.len() && active.len() < index.len() && !active.contains(a)
}

/// The shape of the type that `texpr` stands for, with the generic parameters `env`
/// in scope, inside the expansion of the aliases `active`.
pub open spec fn expand(
    datas: Datas,
    decls: Seq<AliasDecl>,
    index: Seq<usize>,
    texpr: TypeExpr,
    env: Seq<(Ident, Shape)>,
    active: Seq<AliasId>,
) -> Result<Shape, ElabError>
    decreases index.len() - active.len(), texpr, 0nat,
{
    match texpr.kind {
        TypeKind::Prim(p) => Ok(Shape::Prim(p)),
        TypeKind::List(item) => match expand(datas, decls, index, *item, env, active) {
            Ok(s) => Ok(Shape::List(Box::new(s))),
            Err(e) => Err(e),
        },
        TypeKind::Tuple(fields) => match expand_all(
            datas,
            decls,
            index,
            fields@,
            env,
            active,
            fields@.len(),
        ) {
            Ok(shapes) => Ok(Shape::Tuple(shapes)),
            Err(e) => Err(e),
        },
        TypeKind::Func(i, o) => match expand(datas, decls, index, *i, env, active) {
            Ok(si) => match expand(datas, decls, index, *o, env, active) {
                Ok(so) => Ok(Shape::Func(Box::new(si), Box::new(so))),
                Err(e) => Err(e),
            },
            Err(e) => Err(e),
        },
        TypeKind::Named(name, args) => match env_find(env, name, 0) {
            Some(shape) => if args@.len() == 0 {
                Ok(shape)
            } else {
                Err(
                    ElabError::WrongNumberOfGenerics(
                        texpr.span,
                        args@.len() as usize,
                        texpr.span,
                        0,
                    ),
                )
            },
            None => match datas.type_of(name) {
                None => Err(ElabError::NoSuchData(SrcNode { inner: name, span: texpr.span })),
                Some(entry) => if args@.len() != params_of(datas, entry.target).len() {
                    Err(
                        ElabError::WrongNumberOfGenerics(
                            texpr.span,
                            args@.len() as usize,
                            entry.span,
                            params_of(datas, entry.target).len() as usize,
                        ),
                    )
                } else {
                    match expand_all(datas, decls, index, args@, env, active, args@.len()) {
                        Err(e) => Err(e),
                        Ok(shapes) => match entry.target {
                            TypeRef::Data(d) => Ok(Shape::Data(d, shapes)),
                            TypeRef::Alias(a) => if enters(index, a, active) {
                                expand(
                                    datas,
                                    decls,
                                    index,
                                    target_of(decls, index, a),
                                    bound_env(params_of(datas, entry.target), shapes),
                                    active.push(a),
                                )
                            } else {
                                Err(ElabError::RecursiveAlias(a, texpr.span))
                            },
                        },
                    }
                },
            },
        },
    }
}

/// The shapes of the first `upto` types of `ts`, or the first error among them.
pub open spec fn expand_all(
    datas: Datas,
    decls: Seq<AliasDecl>,
    index: Seq<usize>,
    ts: Seq<TypeExpr>,
    env: Seq<(Ident, Shape)>,
    active: Seq<AliasId>,
    upto: nat,
) -> Result<Seq<Shape>, ElabError>
    decreases index.len() - active.len(), ts, upto,
{
    if upto == 0 || upto > ts.len() {
        Ok(Seq::empty())
    } else {
        match expand_all(datas, decls, index, ts, env, active, (upto - 1) as nat) {
            Err(e) => Err(e),
            Ok(shapes) => match expand(datas, decls, index, ts[upto - 1], env, active) {
                Err(e) => Err(e),
                Ok(s) => Ok(shapes.push(s)),
            },
        }
    }
}

/// Whether two registries declare the same type names for the same things with the
/// same generic parameters: what the expansion of a written type reads.
pub open spec fn same_names(a: Datas, b: Datas) -> bool {
    &&& a.types() == b.types()
    &&& a.scopes() == b.scopes()
    &&& a.datas() == b.datas()
    &&& a.aliases().len() == b.aliases().len()
    &&& forall|i: int|
        #![trigger a.aliases()[i]]
        #![trigger b.aliases()[i]]
        0 <= i < a.aliases().len() ==> a.aliases()[i].gen_scope == b.aliases()[i].gen_scope
}

/// Whether two registries declare the same type names, each with the same generic
/// parameters.
pub open spec fn same_params(a: Datas, b: Datas) -> bool {
    &&& a.types() == b.types()
    &&& forall|i: int|
        0 <= i < a.types().len() ==> params_of(a, (#[trigger] a.types()[i]).target) == params_of(
            b,
            a.types()[i].target,
        )
}

/// Registries that declare the same names for the same things declare them with the
/// same generic parameters.
pub proof fn lemma_same_names(a: Datas, b: Datas)
    requires
        a.wf(),
        same_names(a, b),
    ensures
        same_params(a, b),
{
    assert forall|i: int| 0 <= i < a.types().len() implies params_of(
        a,
        (#[trigger] a.types()[i]).target,
    ) == params_of(b, a.types()[i].target) by {
        match a.types()[i].target {
            TypeRef::Data(d) => {},
            TypeRef::Alias(x) => {
                assert(a.aliases()[x.0 as int].gen_scope == b.aliases()[x.0 as int].gen_scope);
            },
        }
    }
}

/// A written type expands alike in registries that declare the same names.
pub proof fn lemma_expand_same(
    a: Datas,
    b: Datas,
    decls: Seq<AliasDecl>,
    index: Seq<usize>,
    texpr: TypeExpr,
    env: Seq<(Ident, Shape)>,
    active: Seq<AliasId>,
)
    requires
        a.wf(),
        same_names(a, b),
    ensures
        expand(a, decls, index, texpr, env, active) == expand(b, decls, index, texpr, env, active),
{
    lemma_same_names(a, b);
    lemma_expand_alike(a, b, decls, index, texpr, env, active);
}

/// A written type expands alike in registries that declare the same names with the
/// same generic parameters.
pub proof fn lemma_expand_alike(
    a: Datas,
    b: Datas,
    decls: Seq<AliasDecl>,
    index: Seq<usize>,
    texpr: TypeExpr,
    env: Seq<(Ident, Shape)>,
    active: Seq<AliasId>,
)
    requires
        a.wf(),
        same_params(a, b),
    ensures
        expand(a, decls, index, texpr, env, active) == expand(b, decls, index, texpr, env, active),
    decreases index.len() - active.len(), texpr, 0nat,
{
    match texpr.kind {
        TypeKind::Prim(_) => {},
        TypeKind::List(item) => {
            lemma_expand_alike(a, b, decls, index, *item, env, active);
        },
        TypeKind::Tuple(fields) => {
            lemma_expand_all_alike(a, b, decls, index, fields@, env, active, fields@.len());
        },
        TypeKind::Func(i, o) => {
            lemma_expand_alike(a, b, decls, index, *i, env, active);
            lemma_expand_alike(a, b, decls, index, *o, env, active);
        },
        TypeKind::Named(name, args) => {
            if env_find(env, name, 0) is None {
                assert(a.type_of(name) == b.type_of(name));
                match a.type_of(name) {
                    None => {},
                    Some(entry) => {
                        let i = choose|i: int|
                            0 <= i < a.types().len() && a.types()[i].name == name;
                        assert(entry == a.types()[i]);
                        assert(params_of(a, entry.target) == params_of(b, entry.target));
                        lemma_expand_all_alike(a, b, decls, index, args@, env, active, args@.len());
                        if args@.len() == params_of(a, entry.target).len() {
                            match expand_all(a, decls, index, args@, env, active, args@.len()) {
                                Err(_) => {},
                                Ok(shapes) => match entry.target {
                                    TypeRef::Data(_) => {},
                                    TypeRef::Alias(x) => {
                                        if enters(index, x, active) {
                                            lemma_expand_alike(
                                                a,
                                                b,
                                                decls,
                                                index,
                                                target_of(decls, index, x),
                                                bound_env(params_of(a, entry.target), shapes),
                                                active.push(x),
                                            );
                                        }
                                    },
                                },
                            }
                        }
                    },
                }
            }
        },
    }
}

/// Written types expand alike in registries that declare the same names with the
/// same generic parameters.
pub proof fn lemma_expand_all_alike(
    a: Datas,
    b: Datas,
    decls: Seq<AliasDecl>,
    index: Seq<usize>,
    ts: Seq<TypeExpr>,
    env: Seq<(Ident, Shape)>,
    active: Seq<AliasId>,
    upto: nat,
)
    requires
        a.wf(),
        same_params(a, b),
    ensures
        expand_all(a, decls, index, ts, env, active, upto) == expand_all(
            b,
            decls,
            index,
            ts,
            env,
            active,
            upto,
        ),
    decreases index.len() - active.len(), ts, upto,
{
    if upto > 0 && upto <= ts.len() {
        lemma_expand_all_alike(a, b, decls, index, ts, env, active, (upto - 1) as nat);
        lemma_expand_alike(a, b, decls, index, ts[upto - 1], env, active);
    }
}

/// Where the first `upto` types all stand for a type, there are `upto` shapes.
pub proof fn lemma_expand_all_len(
    datas: Datas,
    decls: Seq<AliasDecl>,
    index: Seq<usize>,
    ts: Seq<TypeExpr>,
    env: Seq<(Ident, Shape)>,
    active: Seq<AliasId>,
    upto: nat,
)
    requires
        upto <= ts.len(),
        expand_all(datas, decls, index, ts, env, active, upto) is Ok,
    ensures
        expand_all(datas, decls, index, ts, env, active, upto).unwrap().len() == upto,
    decreases upto,
{
    if upto > 0 {
        lemma_expand_all_len(datas, decls, index, ts, env, active, (upto - 1) as nat);
    }
}

/// The first error among the types stays the first error when more types follow.
pub proof fn lemma_expand_all_err(
    datas: Datas,
    decls: Seq<AliasDecl>,
    index: Seq<usize>,
    ts: Seq<TypeExpr>,
    env: Seq<(Ident, Shape)>,
    active: Seq<AliasId>,
    at: nat,
    upto: nat,
)
    requires
        at <= upto <= ts.len(),
        expand_all(datas, decls, index, ts, env, active, at) is Err,
    ensures
        expand_all(datas, decls, index, ts, env, active, upto) == expand_all(
            datas,
            decls,
            index,
            ts,
            env,
            active,
            at,
        ),
    decreases upto - at,
{
    if at < upto {
        lemma_expand_all_err(datas, decls, index, ts, env, active, at, (upto - 1) as nat);
    }
}

/// An alias that stands for a mention of itself cannot be expanded: the mention
/// inside it is reported.
pub proof fn lemma_alias_of_itself(
    datas: Datas,
    decls: Seq<AliasDecl>,
    index: Seq<usize>,
    texpr: TypeExpr,
    env: Seq<(Ident, Shape)>,
    active: Seq<AliasId>,
    a: AliasId,
)
    requires
        texpr.kind is Named,
        texpr.kind->Named_1@.len() == 0,
        env_find(env, texpr.kind->Named_0, 0) is None,
        datas.type_of(texpr.kind->Named_0) is Some,
        datas.type_of(texpr.kind->Named_0).unwrap().target == TypeRef::Alias(a),
        target_of(decls, index, a).kind == texpr.kind,
        params_of(datas, TypeRef::Alias(a)).len() == 0,
        enters(index, a, active),
    ensures
        expand(datas, decls, index, texpr, env, active) == Err::<Shape, ElabError>(
            ElabError::RecursiveAlias(a, target_of(decls, index, a).span),
        ),
{
    let inner = target_of(decls, index, a);
    let shapes = Seq::<Shape>::empty();
    let env2 = bound_env(params_of(datas, TypeRef::Alias(a)), shapes);
    assert(env2.len() == 0);
    assert(env_find(env2, texpr.kind->Named_0, 0) is None);
    assert(active.push(a).contains(a)) by {
        assert(active.push(a)[active.len() as int] == a);
    }
    let args = texpr.kind->Named_1;
    assert(expand_all(datas, decls, index, args@, env2, active.push(a), 0) == Ok::<
        Seq<Shape>,
        ElabError,
    >(shapes));
    assert(expand_all(datas, decls, index, args@, env, active, 0) == Ok::<Seq<Shape>, ElabError>(
        shapes,
    ));
    assert(!enters(index, a, active.push(a)));
    assert(expand(datas, decls, index, inner, env2, active.push(a)) == Err::<Shape, ElabError>(
        ElabError::RecursiveAlias(a, inner.span),
    ));
}

/// An alias that stands for itself through another alias cannot be expanded: where
/// an alias under expansion is mentioned by the alias that a written type names, the
/// mention inside that alias is reported.
pub proof fn lemma_alias_through(
    datas: Datas,
    decls: Seq<AliasDecl>,
    index: Seq<usize>,
    mention: TypeExpr,
    env: Seq<(Ident, Shape)>,
    active: Seq<AliasId>,
    a: AliasId,
    b: AliasId,
)
    requires
        active.contains(a),
        mention.kind is Named,
        mention.kind->Named_1@.len() == 0,
        env_find(env, mention.kind->Named_0, 0) is None,
        datas.type_of(mention.kind->Named_0) is Some,
        datas.type_of(mention.kind->Named_0).unwrap().target == TypeRef::Alias(b),
        params_of(datas, TypeRef::Alias(b)).len() == 0,
        enters(index, b, active),
        target_of(decls, index, b).kind is Named,
        target_of(decls, index, b).kind->Named_1@.len() == 0,
        datas.type_of(target_of(decls, index, b).kind->Named_0) is Some,
        datas.type_of(target_of(decls, index, b).kind->Named_0).unwrap().target == TypeRef::Alias(
            a,
        ),
        params_of(datas, TypeRef::Alias(a)).len() == 0,
    ensures
        expand(datas, decls, index, mention, env, active) == Err::<Shape, ElabError>(
            ElabError::RecursiveAlias(a, target_of(decls, index, b).span),
        ),
{
    let inner = target_of(decls, index, b);
    let shapes = Seq::<Shape>::empty();
    let env2 = bound_env(params_of(datas, TypeRef::Alias(b)), shapes);
    assert(env2.len() == 0);
    assert(env_find(env2, inner.kind->Named_0, 0) is None);
    assert(active.push(b).contains(a)) by {
        let i = choose|i: int| 0 <= i < active.len() && active[i] == a;
        assert(active.push(b)[i] == a);
    }
    assert(expand_all(datas, decls, index, inner.kind->Named_1@, env2, active.push(b), 0) == Ok::<
        Seq<Shape>,
        ElabError,
    >(shapes));
    assert(expand_all(datas, decls, index, mention.kind->Named_1@, env, active, 0) == Ok::<
        Seq<Shape>,
        ElabError,
    >(shapes));
    lemma_alias_reentry(datas, decls, index, inner, env2, active.push(b), a);
}

/// An alias is never expanded inside its own expansion: a mention of an alias that is
/// being expanded is reported, however many aliases the expansion went through.
pub proof fn lemma_alias_reentry(
    datas: Datas,
    decls: Seq<AliasDecl>,
    index: Seq<usize>,
    texpr: TypeExpr,
    env: Seq<(Ident, Shape)>,
    active: Seq<AliasId>,
    a: AliasId,
)
    requires
        texpr.kind is Named,
        env_find(env, texpr.kind->Named_0, 0) is None,
        datas.type_of(texpr.kind->Named_0) is Some,
        datas.type_of(texpr.kind->Named_0).unwrap().target == TypeRef::Alias(a),
        texpr.kind->Named_1@.len() == params_of(datas, TypeRef::Alias(a)).len(),
        expand_all(
            datas,
            decls,
            index,
            texpr.kind->Named_1@,
            env,
            active,
            texpr.kind->Named_1@.len(),
        ) is Ok,
        active.contains(a),
    ensures
        expand(datas, decls, index, texpr, env, active) == Err::<Shape, ElabError>(
            ElabError::RecursiveAlias(a, texpr.span),
        ),
{
}

/// A type that is given another number of arguments than it has generic parameters
/// is reported, with both numbers.
pub proof fn lemma_wrong_arity(
    datas: Datas,
    decls: Seq<AliasDecl>,
    index: Seq<usize>,
    texpr: TypeExpr,
    env: Seq<(Ident, Shape)>,
    active: Seq<AliasId>,
)
    requires
        texpr.kind is Named,
        env_find(env, texpr.kind->Named_0, 0) is None,
        datas.type_of(texpr.kind->Named_0) is Some,
        texpr.kind->Named_1@.len() != params_of(
            datas,
            datas.type_of(texpr.kind->Named_0).unwrap().target,
        ).len(),
    ensures
        expand(datas, decls, index, texpr, env, active) == Err::<Shape, ElabError>(
            ElabError::WrongNumberOfGenerics(
                texpr.span,
                texpr.kind->Named_1@.len() as usize,
                datas.type_of(texpr.kind->Named_0).unwrap().span,
                params_of(datas, datas.type_of(texpr.kind->Named_0).unwrap().target).len() as usize,
            ),
        ),
{
}

/// The names of `env`, each with the shape of its type in the store `tys`.
pub open spec fn env_shapes(tys: Seq<TyView>, env: Seq<(Ident, TyId)>) -> Seq<(Ident, Shape)> {
    Seq::new(env.len(), |k: int| (env[k].0, shape_of(tys, env[k].1.0 as nat)))
}

/// Whether each type of `env` is a type of the store `tys`.
pub open spec fn env_ok(tys: Seq<TyView>, env: Seq<(Ident, TyId)>) -> bool {
    forall|k: int| 0 <= k < env.len() ==> (#[trigger] env[k]).1.0 < tys.len()
}

/// The names of scope keep their shapes in a store that extends the store.
pub proof fn lemma_env_extends(a: Seq<TyView>, b: Seq<TyView>, env: Seq<(Ident, TyId)>)
    requires
        extends(a, b),
        env_ok(a, env),
    ensures
        env_shapes(b, env) == env_shapes(a, env),
        env_ok(b, env),
{
    assert forall|k: int| 0 <= k < env.len() implies shape_of(b, env[k].1.0 as nat) == shape_of(
        a,
        env[k].1.0 as nat,
    ) by {
        lemma_shape_extends(a, b, env[k].1.0 as nat);
    }
    assert(env_shapes(b, env) =~= env_shapes(a, env));
}

/// The first type that `env` gives for `name`.
fn find_in_env(env: &Vec<(Ident, TyId)>, name: Ident, types: &Types) -> (r: Option<TyId>)
    requires
        env_ok(types@, env@),
    ensures
        match r {
            Some(id) => types.has(id) && env_find(env_shapes(types@, env@), name, 0) == Some(
                types.shape(id),
            ),
            None => env_find(env_shapes(types@, env@), name, 0) is None,
        },
{
    let mut i: usize = 0;
    while i < env.len()
        invariant
            i <= env.len(),
            env_ok(types@, env@),
            env_find(env_shapes(types@, env@), name, 0) == env_find(
                env_shapes(types@, env@),
                name,
                i as nat,
            ),
        decreases env.len() - i,
    {
        if env[i].0 == name {
            return Some(env[i].1);
        }
        i += 1;
    }
    None
}

/// Whether `a` is among `active`.
fn is_active(active: &Vec<AliasId>, a: AliasId) -> (r: bool)
    ensures
        r == active@.contains(a),
{
    let mut i: usize = 0;
    while i < active.len()
        invariant
            i <= active.len(),
            forall|j: int| 0 <= j < i ==> active[j] != a,
        decreases active.len() - i,
    {
        if active[i] == a {
            assert(active@[i as int] == a);
            return true;
        }
        i += 1;
    }
    false
}

/// The number of generic parameters of what `target` stands for.
fn arity(datas: &Datas, target: TypeRef) -> (n: usize)
    requires
        datas.wf(),
        match target {
            TypeRef::Data(d) => d.0 < datas.datas().len(),
            TypeRef::Alias(a) => a.0 < datas.aliases().len(),
        },
    ensures
        n == params_of(*datas, target).len(),
{
    match target {
        TypeRef::Data(d) => datas.get_scope(datas.get_data(d).gen_scope).len(),
        TypeRef::Alias(a) => datas.get_scope(datas.get_alias(a).gen_scope).len(),
    }
}

/// The types that the written types `ts` stand for, or the first error among them.
#[verifier::loop_isolation(false)]
pub fn elaborate_all(
    types: &mut Types,
    datas: &Datas,
    decls: &Vec<AliasDecl>,
    index: &Vec<usize>,
    ts: &Vec<TypeExpr>,
    env: &Vec<(Ident, TyId)>,
    active: &mut Vec<AliasId>,
) -> (r: Result<Vec<TyId>, ElabError>)
    requires
        old(types).wf(),
        datas.wf(),
        sources_ok(decls@, index@),
        env_ok(old(types)@, env@),
    ensures
        final(types).wf(),
        extends(old(types)@, final(types)@),
        final(active)@ == old(active)@,
        match expand_all(
            *datas,
            decls@,
            index@,
            ts@,
            env_shapes(old(types)@, env@),
            old(active)@,
            ts@.len(),
        ) {
            Ok(shapes) => r is Ok && r.unwrap()@.len() == shapes.len() && forall|k: int|
                0 <= k < shapes.len() ==> final(types).has(#[trigger] r.unwrap()@[k]) && final(types).shape(r.unwrap()@[k]) == shapes[k],
            Err(e) => r == Err::<Vec<TyId>, ElabError>(e),
        },
    decreases index.len() - old(active).len(), ts, ts.len(),
{
    let ghost start = types@;
    let ghost envs = env_shapes(start, env@);
    let ghost act = active@;
    let mut out: Vec<TyId> = Vec::new();
    let mut k: usize = 0;
    while k < ts.len()
        invariant
            k <= ts.len(),
            types.wf(),
            datas.wf(),
            sources_ok(decls@, index@),
            extends(start, types@),
            env_ok(start, env@),
            envs == env_shapes(start, env@),
            active@ == act,
            index.len() - act.len() == index.len() - old(active).len(),
            out@.len() == k,
            expand_all(*datas, decls@, index@, ts@, envs, act, k as nat) is Ok,
            forall|j: int|
                0 <= j < k ==> types.has(#[trigger] out@[j]) && types.shape(out@[j]) == expand_all(
                    *datas,
                    decls@,
                    index@,
                    ts@,
                    envs,
                    act,
                    k as nat,
                ).unwrap()[j],
        decreases ts.len() - k,
    {
        let ghost before = types@;
        proof {
            lemma_env_extends(start, before, env@);
        }
        match elaborate(types, datas, decls, index, &ts[k], env, active) {
            Ok(id) => {
                proof {
                    lemma_extends_trans(start, before, types@);
                    let prev = expand_all(*datas, decls@, index@, ts@, envs, act, k as nat).unwrap();
                    let shape = expand(*datas, decls@, index@, ts@[k as int], envs, act).unwrap();
                    lemma_expand_all_len(*datas, decls@, index@, ts@, envs, act, k as nat);
                    assert(expand_all(*datas, decls@, index@, ts@, envs, act, (k + 1) as nat)
                        == Ok::<Seq<Shape>, ElabError>(prev.push(shape)));
                    assert forall|j: int| 0 <= j < k implies types.has(#[trigger] out@[j])
                        && types.shape(out@[j]) == prev[j] by {
                        lemma_shape_extends(before, types@, out@[j].0 as nat);
                    }
                }
                out.push(id);
            },
            Err(e) => {
                proof {
                    lemma_extends_trans(start, before, types@);
                    assert(expand_all(*datas, decls@, index@, ts@, envs, act, (k + 1) as nat)
                        == Err::<Seq<Shape>, ElabError>(e));
                    lemma_expand_all_err(
                        *datas,
                        decls@,
                        index@,
                        ts@,
                        envs,
                        act,
                        (k + 1) as nat,
                        ts@.len(),
                    );
                }
                return Err(e);
            },
        }
        k += 1;
    }
    proof {
        lemma_expand_all_len(*datas, decls@, index@, ts@, envs, act, ts@.len());
    }
    Ok(out)
}

/// The type that the written type `texpr` stands for, with the generic parameters
/// `env` in scope, inside the expansion of the aliases `active`; or why it stands for
/// none.
#[verifier::loop_isolation(false)]
pub fn elaborate(
    types: &mut Types,
    datas: &Datas,
    decls: &Vec<AliasDecl>,
    index: &Vec<usize>,
    texpr: &TypeExpr,
    env: &Vec<(Ident, TyId)>,
    active: &mut Vec<AliasId>,
) -> (r: Result<TyId, ElabError>)
    requires
        old(types).wf(),
        datas.wf(),
        sources_ok(decls@, index@),
        env_ok(old(types)@, env@),
    ensures
        final(types).wf(),
        extends(old(types)@, final(types)@),
        final(active)@ == old(active)@,
        match expand(
            *datas,
            decls@,
            index@,
            *texpr,
            env_shapes(old(types)@, env@),
            old(active)@,
        ) {
            Ok(shape) => r is Ok && final(types).has(r.unwrap()) && final(types).shape(r.unwrap())
                == shape,
            Err(e) => r == Err::<TyId, ElabError>(e),
        },
    decreases index.len() - old(active).len(), texpr, 0nat,
{
    let ghost start = types@;
    let ghost envs = env_shapes(start, env@);
    let span = Span { src: texpr.span.src, start: texpr.span.start, end: texpr.span.end };
    match &texpr.kind {
        TypeKind::Prim(p) => {
            let id = types.intern(Ty::Prim(*p), span);
            proof {
                lemma_shape_parts(types@, id.0 as nat);
            }
            Ok(id)
        },
        TypeKind::List(item) => {
            match elaborate(types, datas, decls, index, &**item, env, active) {
                Ok(inner) => {
                    let ghost mid = types@;
                    let id = types.intern(Ty::List(inner), span);
                    proof {
                        lemma_shape_parts(types@, id.0 as nat);
                        lemma_shape_extends(mid, types@, inner.0 as nat);
                    }
                    Ok(id)
                },
                Err(e) => Err(e),
            }
        },
        TypeKind::Tuple(fields) => {
            match elaborate_all(types, datas, decls, index, fields, env, active) {
                Ok(ids) => {
                    let ghost mid = types@;
                    let ghost parts = ids@;
                    let id = types.intern(Ty::Tuple(ids), span);
                    proof {
                        lemma_shape_parts(types@, id.0 as nat);
                        let shapes = expand_all(
                            *datas,
                            decls@,
                            index@,
                            fields@,
                            envs,
                            active@,
                            fields@.len(),
                        ).unwrap();
                        assert forall|k: int| 0 <= k < parts.len() implies shape_of(
                            types@,
                            parts[k].0 as nat,
                        ) == shapes[k] by {
                            lemma_shape_extends(mid, types@, parts[k].0 as nat);
                        }
                        assert(types.shape(id)->Tuple_0 =~= shapes);
                    }
                    Ok(id)
                },
                Err(e) => Err(e),
            }
        },
        TypeKind::Func(i, o) => {
            match elaborate(types, datas, decls, index, &**i, env, active) {
                Ok(input) => {
                    let ghost mid = types@;
                    proof {
                        lemma_env_extends(start, mid, env@);
                    }
                    match elaborate(types, datas, decls, index, &**o, env, active) {
                        Ok(output) => {
                            let ghost late = types@;
                            let id = types.intern(Ty::Func(input, output), span);
                            proof {
                                lemma_shape_parts(types@, id.0 as nat);
                                lemma_shape_extends(mid, late, input.0 as nat);
                                lemma_shape_extends(late, types@, input.0 as nat);
                                lemma_shape_extends(late, types@, output.0 as nat);
                            }
                            Ok(id)
                        },
                        Err(e) => Err(e),
                    }
                },
                Err(e) => Err(e),
            }
        },
        TypeKind::Named(name, args) => {
            match find_in_env(env, *name, types) {
                Some(id) => {
                    if args.len() == 0 {
                        Ok(id)
                    } else {
                        Err(ElabError::WrongNumberOfGenerics(span, args.len(), span, 0))
                    }
                },
                None => match datas.lookup_type(*name) {
                    None => Err(ElabError::NoSuchData(SrcNode { inner: *name, span })),
                    Some(entry) => {
                        proof {
                            let i = choose|i: int|
                                0 <= i < datas.types().len() && datas.types()[i].name == *name;
                            assert(datas.types()[i] == entry);
                        }
                        let wanted = arity(datas, entry.target);
                        if args.len() != wanted {
                            return Err(
                                ElabError::WrongNumberOfGenerics(
                                    span,
                                    args.len(),
                                    entry.span,
                                    wanted,
                                ),
                            );
                        }
                        match elaborate_all(types, datas, decls, index, args, env, active) {
                            Err(e) => Err(e),
                            Ok(ids) => {
                                let ghost shapes = expand_all(
                                    *datas,
                                    decls@,
                                    index@,
                                    args@,
                                    envs,
                                    active@,
                                    args@.len(),
                                ).unwrap();
                                proof {
                                    lemma_expand_all_len(
                                        *datas,
                                        decls@,
                                        index@,
                                        args@,
                                        envs,
                                        active@,
                                        args@.len(),
                                    );
                                }
                                match entry.target {
                                    TypeRef::Data(d) => {
                                        let ghost mid = types@;
                                        let ghost parts = ids@;
                                        let id = types.intern(Ty::Data(d, ids), span);
                                        proof {
                                            lemma_shape_parts(types@, id.0 as nat);
                                            assert forall|k: int|
                                                0 <= k < parts.len() implies shape_of(
                                                types@,
                                                parts[k].0 as nat,
                                            ) == shapes[k] by {
                                                lemma_shape_extends(
                                                    mid,
                                                    types@,
                                                    parts[k].0 as nat,
                                                );
                                            }
                                            assert(types.shape(id)->Data_1 =~= shapes);
                                        }
                                        Ok(id)
                                    },
                                    TypeRef::Alias(a) => {
                                        if a.0 < index.len() && active.len() < index.len()
                                            && !is_active(active, a) {
                                            let params = datas.get_scope(
                                                datas.get_alias(a).gen_scope,
                                            );
                                            let mut inner: Vec<(Ident, TyId)> = Vec::new();
                                            let mut k: usize = 0;
                                            while k < params.len()
                                                invariant
                                                    k <= params.len(),
                                                    params.len() == ids.len(),
                                                    inner@.len() == k,
                                                    forall|j: int|
                                                        0 <= j < k ==> (#[trigger] inner@[j]) == (
                                                            params@[j].name,
                                                            ids@[j],
                                                        ),
                                                decreases params.len() - k,
                                            {
                                                inner.push((params[k].name, ids[k]));
                                                k += 1;
                                            }
                                            proof {
                                                assert(env_shapes(types@, inner@) =~= bound_env(
                                                    params@,
                                                    shapes,
                                                ));
                                            }
                                            let ghost act = active@;
                                            active.push(a);
                                            let r = elaborate(
                                                types,
                                                datas,
                                                decls,
                                                index,
                                                &decls[index[a.0]].ty,
                                                &inner,
                                                active,
                                            );
                                            active.pop();
                                            proof {
                                                assert(active@ =~= act);
                                            }
                                            r
                                        } else {
                                            Err(ElabError::RecursiveAlias(a, span))
                                        }
                                    },
                                }
                            },
                        }
                    },
                },
            }
        },
    }
}

} // verus!
