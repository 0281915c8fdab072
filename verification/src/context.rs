//! The analysis of a whole program: the names are registered, what they stand for is
//! filled in, and each definition is checked.
//!
//! A failure never stops the analysis. It is reported, the error type stands in for
//! what failed, and the rest of the program is analysed as well.

use crate::check::{
    check_def, def_told, lemma_def_told_extends, lemma_stands_extends, reports, stands_for,
    told_len, TypedDef,
};
use crate::model::{def_m, defs_known, fields_known, lemma_def_same, Infer};
use crate::unify::TyVar;
use crate::data::{
    cons_first, dup_params, kept_params, lemma_cons_first_same, lemma_cons_place_push,
    lemma_places, lemma_type_place_push, type_first, Cons, Datas, Duplicate, Named, TypeEntry,
    TypeRef,
};
use crate::def::{def_first, lemma_def_first_same, Def, DefId, Defs};
use crate::elab::{
    elaborate, env_ok, env_shapes, expand, lemma_env_extends, lemma_expand_alike,
    lemma_expand_same, lemma_same_names, params_of, same_names, same_params, sources_ok,
    ElabError,
};
use crate::error::Error;
use crate::hir::{
    expr_typed, known_slot, lemma_expr_weaken, lemma_known_slot_mono, AliasDecl, DataDecl, DefDecl,
    Program, TySlot, TypeExpr, VariantDecl,
};
use crate::infer::sigs_ok;
use crate::judge::{judged, lemma_judged_extends};
use crate::span::{Ident, Span};
use crate::ty::{
    extends, lemma_extends_trans, lemma_shape_extends, lemma_shape_injective, shape_of, store_wf,
    AliasId, DataId, GenScopeId, Shape, Ty, TyId, TyView, Types,
};
use vstd::prelude::*;

verus! {

/// What the analysis of a program gives: the types, the registries, what each
/// declaration was registered as, the definitions with their types, and the errors
/// that were found.
pub struct Analysis {
    pub tys: Types,
    pub datas: Datas,
    pub defs: Defs,
    pub registered: Registered,
    pub typed: Vec<TypedDef>,
    pub errors: Vec<Error>,
}

/// Whether every type of a field of a constructor is below `n`.
pub open spec fn fields_ok(datas: &Datas, n: nat) -> bool {
    forall|c: int, k: int|
        0 <= c < datas.conses().len() && 0 <= k < datas.conses()[c].fields@.len() ==> (
        #[trigger] datas.conses()[c].fields@[k]).0 < n
}

/// Whether every type that the definitions mention is below `n`, and every list of
/// generic parameters that they mention is below `m`.
pub open spec fn defs_ok(defs: &Defs, n: nat, m: nat) -> bool {
    forall|d: int|
        0 <= d < defs@.len() ==> (#[trigger] defs@[d]).gen_scope.0 < m && (match defs@[d].ty {
            Some(t) => t.0 < n,
            None => true,
        })
}

/// The diagnostics for the generic parameters `dups` that are declared twice.
pub open spec fn gen_errors(dups: Seq<Duplicate>) -> Seq<Error> {
    Seq::new(dups.len(), |k: int| Error::DuplicateGenName(dups[k].name, dups[k].old, dups[k].new))
}

/// Reports the duplicates `dups` as generic parameters declared twice.
fn report_gens(dups: &Vec<Duplicate>, errors: &mut Vec<Error>)
    ensures
        final(errors)@ == old(errors)@ + gen_errors(dups@),
{
    let mut k: usize = 0;
    assert(errors@ =~= old(errors)@ + gen_errors(dups@).take(0));
    while k < dups.len()
        invariant
            k <= dups.len(),
            errors@ == old(errors)@ + gen_errors(dups@).take(k as int),
        decreases dups.len() - k,
    {
        let d = dups[k];
        errors.push(Error::DuplicateGenName(d.name, d.old, d.new));
        assert(errors@ =~= old(errors)@ + gen_errors(dups@).take(k + 1));
        k += 1;
    }
    assert(gen_errors(dups@).take(k as int) =~= gen_errors(dups@));
}

/// The diagnostic for a written type that stands for no type, for the reason `e`;
/// `hole` is the type that stands in for it.
pub open spec fn elab_error_of(e: ElabError, hole: TyId) -> Error {
    match e {
        ElabError::NoSuchData(name) => Error::NoSuchData(name),
        ElabError::WrongNumberOfGenerics(a, n, b, m) => Error::WrongNumberOfGenerics(a, n, b, m),
        ElabError::RecursiveAlias(alias, span) => Error::RecursiveAlias(alias, hole, span),
    }
}

/// The shape of the type that stands for a written type: the shape that it expands
/// to, or that of the error type where it stands for no type.
pub open spec fn shape_or_error(r: Result<Shape, ElabError>) -> Shape {
    match r {
        Ok(shape) => shape,
        Err(_) => Shape::Error,
    }
}

/// The diagnostics for the first `n` of the written types `ts`, in their order: for
/// each that stands for no type the reason, with the type of `ids` at its position as
/// the type that stands in for it.
pub open spec fn reports_of(
    datas: Datas,
    decls: Seq<AliasDecl>,
    index: Seq<usize>,
    ts: Seq<TypeExpr>,
    env: Seq<(Ident, Shape)>,
    ids: Seq<TyId>,
    n: nat,
) -> Seq<Error>
    decreases n,
{
    if n == 0 || n > ts.len() {
        Seq::empty()
    } else {
        let before = reports_of(datas, decls, index, ts, env, ids, (n - 1) as nat);
        match expand(datas, decls, index, ts[n - 1], env, Seq::empty()) {
            Ok(_) => before,
            Err(e) => before.push(elab_error_of(e, ids[n - 1])),
        }
    }
}

/// The diagnostics for the first written types depend on the first types of `ids`
/// only.
pub proof fn lemma_reports_of_same(
    datas: Datas,
    decls: Seq<AliasDecl>,
    index: Seq<usize>,
    ts: Seq<TypeExpr>,
    env: Seq<(Ident, Shape)>,
    a: Seq<TyId>,
    b: Seq<TyId>,
    n: nat,
)
    requires
        n <= a.len(),
        n <= b.len(),
        forall|k: int| 0 <= k < n ==> a[k] == b[k],
    ensures
        reports_of(datas, decls, index, ts, env, a, n) == reports_of(
            datas,
            decls,
            index,
            ts,
            env,
            b,
            n,
        ),
    decreases n,
{
    if n > 0 {
        lemma_reports_of_same(datas, decls, index, ts, env, a, b, (n - 1) as nat);
    }
}

/// The generic parameters `params` of the list `scope`, each with its shape.
pub open spec fn gen_shapes(params: Seq<Named>, scope: GenScopeId) -> Seq<(Ident, Shape)> {
    Seq::new(params.len(), |k: int| (params[k].name, Shape::Gen(k as usize, scope)))
}

/// The error for a written type that stands for no type; `hole` is the type that
/// stands in for it.
fn elab_error(e: ElabError, hole: TyId) -> (r: Error)
    ensures
        r == elab_error_of(e, hole),
{
    match e {
        ElabError::NoSuchData(name) => Error::NoSuchData(name),
        ElabError::WrongNumberOfGenerics(a, n, b, m) => Error::WrongNumberOfGenerics(a, n, b, m),
        ElabError::RecursiveAlias(alias, span) => Error::RecursiveAlias(alias, hole, span),
    }
}

/// The type that the written type `texpr` stands for; if it stands for none, that is
/// reported, and the error type is given.
fn elaborate_or_report(
    types: &mut Types,
    datas: &Datas,
    decls: &Vec<AliasDecl>,
    index: &Vec<usize>,
    texpr: &TypeExpr,
    env: &Vec<(Ident, TyId)>,
    active: &mut Vec<AliasId>,
    errors: &mut Vec<Error>,
) -> (id: TyId)
    requires
        old(types).wf(),
        datas.wf(),
        sources_ok(decls@, index@),
        env_ok(old(types)@, env@),
    ensures
        final(types).wf(),
        extends(old(types)@, final(types)@),
        final(types).has(id),
        final(active)@ == old(active)@,
        old(errors)@.len() <= final(errors)@.len(),
        match expand(
            *datas,
            decls@,
            index@,
            *texpr,
            env_shapes(old(types)@, env@),
            old(active)@,
        ) {
            Ok(shape) => final(types).shape(id) == shape && final(errors)@ == old(errors)@,
            Err(e) => final(types).shape(id) == Shape::Error && final(errors)@ == old(
                errors,
            )@.push(elab_error_of(e, id)),
        },
{
    let ghost start = types@;
    match elaborate(types, datas, decls, index, texpr, env, active) {
        Ok(id) => id,
        Err(e) => {
            let ghost mid = types@;
            let hole = types.intern(Ty::Error, texpr.span);
            proof {
                lemma_extends_trans(start, mid, types@);
            }
            errors.push(elab_error(e, hole));
            hole
        },
    }
}

/// The generic parameters `params` of the list `scope`, each with its type.
fn gen_env(types: &mut Types, params: &Vec<Named>, scope: GenScopeId) -> (env: Vec<(Ident, TyId)>)
    requires
        old(types).wf(),
    ensures
        final(types).wf(),
        extends(old(types)@, final(types)@),
        env_ok(final(types)@, env@),
        env_shapes(final(types)@, env@) == gen_shapes(params@, scope),
{
    let ghost start = types@;
    let mut env: Vec<(Ident, TyId)> = Vec::new();
    let mut k: usize = 0;
    while k < params.len()
        invariant
            k <= params.len(),
            types.wf(),
            extends(start, types@),
            env_ok(types@, env@),
            env@.len() == k,
            forall|j: int|
                0 <= j < k ==> (#[trigger] env@[j]).0 == params@[j].name && shape_of(
                    types@,
                    env@[j].1.0 as nat,
                ) == Shape::Gen(j as usize, scope),
        decreases params.len() - k,
    {
        let ghost before = types@;
        let ghost had = env@;
        let id = types.intern(Ty::Gen(k, scope), params[k].span);
        proof {
            lemma_extends_trans(start, before, types@);
            assert forall|j: int| 0 <= j < k implies shape_of(types@, (#[trigger] had[j]).1.0 as nat)
                == Shape::Gen(j as usize, scope) by {
                lemma_shape_extends(before, types@, had[j].1.0 as nat);
            }
        }
        env.push((params[k].name, id));
        k += 1;
    }
    assert(env_shapes(types@, env@) =~= gen_shapes(params@, scope));
    env
}

/// A copy of the generic parameters of the list `scope`.
fn scope_params(datas: &Datas, scope: GenScopeId) -> (r: Vec<Named>)
    requires
        scope.0 < datas.scopes().len(),
    ensures
        r@ == datas.scopes()[scope.0 as int],
{
    let params = datas.get_scope(scope);
    let mut out: Vec<Named> = Vec::new();
    let mut k: usize = 0;
    while k < params.len()
        invariant
            k <= params.len(),
            out@ == params@.take(k as int),
        decreases params.len() - k,
    {
        out.push(params[k]);
        assert(out@ =~= params@.take(k + 1));
        k += 1;
    }
    assert(out@ =~= params@);
    out
}

/// What the registration of the types of a program gives: for each declaration of a
/// data type its identity, and for each of its constructors its position, where they
/// were registered; for each declaration of an alias its identity; and for each
/// alias the position of its declaration.
pub struct Registered {
    pub datas: Vec<Option<DataId>>,
    pub conses: Vec<Vec<Option<usize>>>,
    pub aliases: Vec<Option<AliasId>>,
    pub sources: Vec<usize>,
}

impl Registered {
    /// Whether what was registered is in the registry `datas`, for the program
    /// `program`.
    pub open spec fn wf(&self, program: &Program, datas: &Datas) -> bool {
        &&& self.datas@.len() == program.datas@.len()
        &&& self.conses@.len() == program.datas@.len()
        &&& self.aliases@.len() == program.aliases@.len()
        &&& self.sources@.len() == datas.aliases().len()
        &&& sources_ok(program.aliases@, self.sources@)
        &&& forall|i: int|
            0 <= i < self.datas@.len() ==> (match #[trigger] self.datas@[i] {
                Some(d) => d.0 < datas.datas().len(),
                None => true,
            })
        &&& forall|i: int|
            0 <= i < self.aliases@.len() ==> (match #[trigger] self.aliases@[i] {
                Some(a) => a.0 < datas.aliases().len(),
                None => true,
            })
        &&& forall|i: int, k: int|
            0 <= i < self.conses@.len() && 0 <= k < self.conses@[i]@.len() ==> (match (
            #[trigger] self.conses@[i]@[k]) {
                Some(c) => c < datas.conses().len(),
                None => true,
            })
        &&& conses_apart(self.conses@)
        &&& aliases_apart(self.aliases@)
    }
}

/// Whether no constructor is registered for two variants.
pub open spec fn conses_apart(conses: Seq<Vec<Option<usize>>>) -> bool {
    forall|i: int, k: int, x: int, y: int|
        0 <= i < conses.len() && 0 <= k < conses[i]@.len() && 0 <= x < conses.len() && 0 <= y
            < conses[x]@.len() && (#[trigger] conses[i]@[k]) is Some && conses[i]@[k] == (
        #[trigger] conses[x]@[y]) ==> i == x && k == y
}

/// Whether no alias is registered for two declarations.
pub open spec fn aliases_apart(aliases: Seq<Option<AliasId>>) -> bool {
    forall|i: int, j: int|
        0 <= i < aliases.len() && 0 <= j < aliases.len() && (#[trigger] aliases[i]) is Some
            && aliases[i] == (#[trigger] aliases[j]) ==> i == j
}

/// Whether the data type `d` of the registry is the one that `decl` declares.
pub open spec fn data_is(datas: &Datas, d: DataId, decl: DataDecl) -> bool {
    &&& d.0 < datas.datas().len()
    &&& datas.datas()[d.0 as int].name == decl.name
    &&& datas.datas()[d.0 as int].span == decl.span
}

/// Whether the alias `a` of the registry is the one that `decl` declares.
pub open spec fn alias_is(datas: &Datas, a: AliasId, decl: AliasDecl) -> bool {
    &&& a.0 < datas.aliases().len()
    &&& datas.aliases()[a.0 as int].name == decl.name
    &&& datas.aliases()[a.0 as int].span == decl.span
}

/// The place where the type name `n` is declared when the data type `i` of `decls`
/// is reached: the place it has in the registry `before`, or else the place of the
/// first of the data types before `i` that has the name.
pub open spec fn data_place(
    types: Seq<TypeEntry>,
    decls: Seq<DataDecl>,
    i: int,
    n: Ident,
) -> Option<Span>
    decreases i,
{
    if i <= 0 || i > decls.len() {
        type_first(types, n, types.len())
    } else {
        match data_place(types, decls, i - 1, n) {
            Some(s) => Some(s),
            None => if decls[i - 1].name == n {
                Some(decls[i - 1].span)
            } else {
                None
            },
        }
    }
}

/// Whether the data type `i` of `decls` is registered: its name is not taken when it
/// is reached.
pub open spec fn data_kept(types: Seq<TypeEntry>, decls: Seq<DataDecl>, i: int) -> bool {
    data_place(types, decls, i, decls[i].name) is None
}

/// The place where the constructor `n` is declared when the variant `k` of the data
/// type `i` of `decls` is reached: the place it has in the registry `before`, or else
/// the place of the first variant of that name, before this one, of a data type that
/// is registered.
pub open spec fn variant_place(
    types: Seq<TypeEntry>,
    conses: Seq<Cons>,
    decls: Seq<DataDecl>,
    i: int,
    k: int,
    n: Ident,
) -> Option<Span>
    decreases i, k,
{
    if 0 <= i < decls.len() && 0 < k <= decls[i].variants@.len() {
        match variant_place(types, conses, decls, i, k - 1, n) {
            Some(s) => Some(s),
            None => if data_kept(types, decls, i) && decls[i].variants@[k - 1].name == n {
                Some(decls[i].variants@[k - 1].span)
            } else {
                None
            },
        }
    } else if 0 < i <= decls.len() {
        variant_place(types, conses, decls, i - 1, decls[i - 1].variants@.len() as int, n)
    } else {
        cons_first(conses, n, conses.len())
    }
}

/// The place where the type name `n` is declared when the alias `a` of the program
/// is reached: the place it has after the data types, or else the place of the first
/// of the aliases before `a` that has the name.
pub open spec fn alias_place(
    types: Seq<TypeEntry>,
    program: &Program,
    a: int,
    n: Ident,
) -> Option<Span>
    decreases a,
{
    if a <= 0 || a > program.aliases@.len() {
        data_place(types, program.datas@, program.datas@.len() as int, n)
    } else {
        match alias_place(types, program, a - 1, n) {
            Some(s) => Some(s),
            None => if program.aliases@[a - 1].name == n {
                Some(program.aliases@[a - 1].span)
            } else {
                None
            },
        }
    }
}

/// The diagnostics for the first `k` variants of the data type `i` of `decls`, which
/// is registered: for each variant whose name is taken, the name, the place where it
/// is declared, and the place of the variant.
pub open spec fn variant_dups(
    types: Seq<TypeEntry>,
    conses: Seq<Cons>,
    decls: Seq<DataDecl>,
    i: int,
    k: nat,
) -> Seq<Error>
    decreases k,
{
    if k == 0 || k > decls[i].variants@.len() {
        Seq::empty()
    } else {
        let sofar = variant_dups(types, conses, decls, i, (k - 1) as nat);
        let v = decls[i].variants@[k - 1];
        match variant_place(types, conses, decls, i, k - 1, v.name) {
            Some(s) => sofar.push(Error::DuplicateConsName(v.name, s, v.span)),
            None => sofar,
        }
    }
}

/// The diagnostics for the first `i` data types of `decls`, in their order: for each
/// data type its generic parameters that are declared twice; then, if its name is
/// taken, the name, the place where it is declared and the place of the data type;
/// else the diagnostics for its variants.
pub open spec fn data_dups(
    types: Seq<TypeEntry>,
    conses: Seq<Cons>,
    decls: Seq<DataDecl>,
    i: nat,
) -> Seq<Error>
    decreases i,
{
    if i == 0 || i > decls.len() {
        Seq::empty()
    } else {
        let d = decls[i - 1];
        data_dups(types, conses, decls, (i - 1) as nat) + gen_errors(
            dup_params(d.gens@, d.gens@.len() as int),
        ) + (match data_place(types, decls, i - 1, d.name) {
            Some(s) => seq![Error::DuplicateTypeName(d.name, s, d.span)],
            None => variant_dups(types, conses, decls, i - 1, d.variants@.len()),
        })
    }
}

/// The diagnostics for the first `a` aliases of the program, in their order: for each
/// alias its generic parameters that are declared twice; then, if its name is taken,
/// the name, the place where it is declared and the place of the alias.
pub open spec fn alias_dups(types: Seq<TypeEntry>, program: &Program, a: nat) -> Seq<Error>
    decreases a,
{
    if a == 0 || a > program.aliases@.len() {
        Seq::empty()
    } else {
        let d = program.aliases@[a - 1];
        alias_dups(types, program, (a - 1) as nat) + gen_errors(
            dup_params(d.gens@, d.gens@.len() as int),
        ) + (match alias_place(types, program, a - 1, d.name) {
            Some(s) => seq![Error::DuplicateTypeName(d.name, s, d.span)],
            None => Seq::empty(),
        })
    }
}

/// The variants of a data type that is not registered declare no constructor.
pub proof fn lemma_variants_skipped(
    types: Seq<TypeEntry>,
    conses: Seq<Cons>,
    decls: Seq<DataDecl>,
    i: int,
    k: int,
    n: Ident,
)
    requires
        0 <= i < decls.len(),
        0 <= k <= decls[i].variants@.len(),
        !data_kept(types, decls, i),
    ensures
        variant_place(types, conses, decls, i, k, n) == variant_place(types, conses, decls, i, 0, n),
    decreases k,
{
    if k > 0 {
        lemma_variants_skipped(types, conses, decls, i, k - 1, n);
    }
}

/// What a registration holds for the data type `j` of `decls`: the data type, if
/// its name is not taken when it is reached; then an entry for each of its variants,
/// with a constructor where the name of the variant is not taken when it is reached;
/// else no entry for a variant.
pub open spec fn data_registered(
    types: Seq<TypeEntry>,
    cons: Seq<Cons>,
    decls: Seq<DataDecl>,
    datas: Seq<Option<DataId>>,
    conses: Seq<Vec<Option<usize>>>,
    j: int,
) -> bool {
    &&& (datas[j] is Some) == data_kept(types, decls, j)
    &&& conses[j]@.len() == (if data_kept(types, decls, j) {
        decls[j].variants@.len()
    } else {
        0
    })
    &&& forall|k: int|
        0 <= k < conses[j]@.len() ==> ((#[trigger] conses[j]@[k]) is Some) == (variant_place(
            types,
            cons,
            decls,
            j,
            k,
            decls[j].variants@[k].name,
        ) is None)
}

/// The list of generic parameters that the declaration `k` of the program declares,
/// without the parameters that are declared twice: the data types come first, then
/// the aliases, then the definitions.
pub open spec fn scope_at(program: &Program, k: int) -> Seq<Named> {
    let n = program.datas@.len();
    let m = program.aliases@.len();
    if k < n {
        kept_params(program.datas@[k].gens@, program.datas@[k].gens@.len() as int)
    } else if k < n + m {
        kept_params(program.aliases@[k - n].gens@, program.aliases@[k - n].gens@.len() as int)
    } else {
        kept_params(program.defs@[k - n - m].gens@, program.defs@[k - n - m].gens@.len() as int)
    }
}

/// The lists of generic parameters of the first `count` declarations of the program.
pub open spec fn decl_scopes(program: &Program, count: nat) -> Seq<Seq<Named>> {
    Seq::new(count, |k: int| scope_at(program, k))
}

/// The constructors among the first `n` entries of `xs`, in their order.
pub open spec fn somes(xs: Seq<Option<usize>>, n: nat) -> Seq<usize>
    decreases n,
{
    if n == 0 || n > xs.len() {
        Seq::empty()
    } else {
        match xs[n - 1] {
            Some(c) => somes(xs, (n - 1) as nat).push(c),
            None => somes(xs, (n - 1) as nat),
        }
    }
}

/// Whether the constructor at `c` of the registry is the one that the variant `v` of
/// the data type `d` declares.
pub open spec fn cons_entry(now: &Datas, c: usize, d: DataId, v: VariantDecl) -> bool {
    &&& c < now.conses().len()
    &&& now.conses()[c as int].name == v.name
    &&& now.conses()[c as int].span == v.span
    &&& now.conses()[c as int].data == d
}

/// Whether the registry holds, for the data type `j` of `decls`, if it is
/// registered, what it declares: its name stands for it, its generic parameters are
/// the list that it declared, its constructors are those that are registered for its
/// variants, in their order, and each of them is what its variant declares. `scopes`
/// is the number of the lists of generic parameters before those of `decls`.
pub open spec fn data_entry(
    now: &Datas,
    scopes: nat,
    decls: Seq<DataDecl>,
    datas: Seq<Option<DataId>>,
    conses: Seq<Vec<Option<usize>>>,
    j: int,
) -> bool {
    match datas[j] {
        Some(d) => {
            &&& d.0 < now.datas().len()
            &&& now.type_of(decls[j].name) == Some(
                TypeEntry { name: decls[j].name, span: decls[j].span, target: TypeRef::Data(d) },
            )
            &&& now.datas()[d.0 as int].gen_scope == GenScopeId((scopes + j) as usize)
            &&& now.datas()[d.0 as int].cons@ == somes(conses[j]@, conses[j]@.len())
            &&& forall|k: int|
                0 <= k < conses[j]@.len() && k < decls[j].variants@.len() ==> (
                match #[trigger] conses[j]@[k] {
                    Some(c) => cons_entry(now, c, d, decls[j].variants@[k]),
                    None => true,
                })
        },
        None => true,
    }
}

/// Whether the registry holds, for the alias `x` of the program, if it is
/// registered, what it declares: its name stands for it, and it has its name, its
/// place and the list of generic parameters that it declared. `scopes` is the number
/// of the lists of generic parameters before those of the aliases.
pub open spec fn alias_entry(
    now: &Datas,
    scopes: nat,
    program: &Program,
    aliases: Seq<Option<AliasId>>,
    x: int,
) -> bool {
    match aliases[x] {
        Some(a) => {
            let decl = program.aliases@[x];
            &&& a.0 < now.aliases().len()
            &&& now.type_of(decl.name) == Some(
                TypeEntry { name: decl.name, span: decl.span, target: TypeRef::Alias(a) },
            )
            &&& now.aliases()[a.0 as int].name == decl.name
            &&& now.aliases()[a.0 as int].span == decl.span
            &&& now.aliases()[a.0 as int].gen_scope == GenScopeId((scopes + x) as usize)
        },
        None => true,
    }
}

/// The constructors among the first entries depend on those entries only.
pub proof fn lemma_somes_same(a: Seq<Option<usize>>, b: Seq<Option<usize>>, n: nat)
    requires
        n <= a.len(),
        n <= b.len(),
        forall|i: int| 0 <= i < n ==> a[i] == b[i],
    ensures
        somes(a, n) == somes(b, n),
    decreases n,
{
    if n > 0 {
        lemma_somes_same(a, b, (n - 1) as nat);
    }
}

/// What the registry holds for a data type stays what it is when more is declared.
pub proof fn lemma_data_entry_kept(
    now: &Datas,
    next: &Datas,
    scopes: nat,
    decls: Seq<DataDecl>,
    datas: Seq<Option<DataId>>,
    conses: Seq<Vec<Option<usize>>>,
    j: int,
)
    requires
        data_entry(now, scopes, decls, datas, conses, j),
        datas[j] is Some ==> next.type_of(decls[j].name) == now.type_of(decls[j].name),
        now.datas().len() <= next.datas().len(),
        now.conses().len() <= next.conses().len(),
        datas[j] matches Some(d) ==> next.datas()[d.0 as int].gen_scope
            == now.datas()[d.0 as int].gen_scope && next.datas()[d.0 as int].cons@
            == now.datas()[d.0 as int].cons@,
        forall|c: int|
            0 <= c < now.conses().len() ==> (#[trigger] next.conses()[c]).name
                == now.conses()[c].name && next.conses()[c].span == now.conses()[c].span
                && next.conses()[c].data == now.conses()[c].data,
    ensures
        data_entry(next, scopes, decls, datas, conses, j),
{
    match datas[j] {
        Some(d) => {
            assert forall|k: int|
                0 <= k < conses[j]@.len() && k < decls[j].variants@.len() implies (
            match #[trigger] conses[j]@[k] {
                Some(c) => cons_entry(next, c, d, decls[j].variants@[k]),
                None => true,
            }) by {
                match conses[j]@[k] {
                    Some(c) => {
                        assert(cons_entry(now, c, d, decls[j].variants@[k]));
                        assert(next.conses()[c as int].name == now.conses()[c as int].name);
                    },
                    None => {},
                }
            }
        },
        None => {},
    }
}

/// Registers the names of the data types, constructors and aliases of `program`. A
/// name that is taken is reported with the place where it is declared, and its
/// declaration is left out, and with a data type its variants; every other
/// declaration is registered.
#[verifier::rlimit(80)]
pub fn register_types(program: &Program, datas: &mut Datas, errors: &mut Vec<Error>) -> (r:
    Registered)
    requires
        old(datas).wf(),
        old(datas).aliases().len() == 0,
        old(datas).conses().len() == 0,
    ensures
        final(datas).wf(),
        r.wf(program, final(datas)),
        fields_ok(final(datas), 0),
        old(errors)@.len() <= final(errors)@.len(),
        forall|j: int|
            0 <= j < r.datas@.len() ==> (match #[trigger] r.datas@[j] {
                Some(d) => data_is(final(datas), d, program.datas@[j]),
                None => true,
            }),
        forall|j: int|
            0 <= j < r.aliases@.len() ==> (match #[trigger] r.aliases@[j] {
                Some(x) => alias_is(final(datas), x, program.aliases@[j]),
                None => true,
            }),
        final(errors)@.len() == old(errors)@.len() ==> forall|j: int|
            0 <= j < r.datas@.len() ==> (#[trigger] r.datas@[j]) is Some,
        final(errors)@.len() == old(errors)@.len() ==> forall|j: int|
            0 <= j < r.aliases@.len() ==> (#[trigger] r.aliases@[j]) is Some,
        forall|j: int|
            0 <= j < program.datas@.len() ==> #[trigger] data_registered(
                old(datas).types(),
                old(datas).conses(),
                program.datas@,
                r.datas@,
                r.conses@,
                j,
            ),
        forall|j: int|
            0 <= j < program.aliases@.len() ==> ((#[trigger] r.aliases@[j]) is Some) == (
            alias_place(old(datas).types(), program, j, program.aliases@[j].name) is None),
        final(datas).scopes() == old(datas).scopes() + decl_scopes(
            program,
            (program.datas@.len() + program.aliases@.len()) as nat,
        ),
        forall|j: int|
            0 <= j < program.datas@.len() ==> #[trigger] data_entry(
                final(datas),
                old(datas).scopes().len(),
                program.datas@,
                r.datas@,
                r.conses@,
                j,
            ),
        forall|x: int|
            0 <= x < program.aliases@.len() ==> #[trigger] alias_entry(
                final(datas),
                (old(datas).scopes().len() + program.datas@.len()) as nat,
                program,
                r.aliases@,
                x,
            ),
        forall|n: Ident| #[trigger]
            final(datas).type_place(n) == alias_place(
                old(datas).types(),
                program,
                program.aliases@.len() as int,
                n,
            ),
        forall|n: Ident| #[trigger]
            final(datas).cons_place(n) == variant_place(
                old(datas).types(),
                old(datas).conses(),
                program.datas@,
                program.datas@.len() as int,
                0,
                n,
            ),
        final(errors)@ == old(errors)@ + data_dups(
            old(datas).types(),
            old(datas).conses(),
            program.datas@,
            program.datas@.len(),
        ) + alias_dups(old(datas).types(), program, program.aliases@.len()),
{
    let ghost first = *datas;
    let ghost s0 = datas.scopes().len();
    assert(datas.scopes() =~= first.scopes() + decl_scopes(program, 0));
    let ghost tnames = datas.types();
    let ghost cnames = datas.conses();
    let ghost told = errors@;
    let ghost decls = program.datas@;
    proof {
        assert forall|n: Ident| #[trigger] datas.type_place(n) == data_place(tnames, decls, 0, n) by {
            lemma_places(first, n);
        }
        assert forall|n: Ident| #[trigger]
            datas.cons_place(n) == variant_place(tnames, cnames, decls, 0, 0, n) by {
            lemma_places(first, n);
        }
    }
    assert(errors@ =~= told + data_dups(tnames, cnames, decls, 0));
    let mut reg = Registered {
        datas: Vec::new(),
        conses: Vec::new(),
        aliases: Vec::new(),
        sources: Vec::new(),
    };
    let mut i: usize = 0;
    while i < program.datas.len()
        invariant
            i <= program.datas.len(),
            datas.wf(),
            datas.aliases().len() == 0,
            fields_ok(datas, 0),
            reg.datas@.len() == i,
            reg.conses@.len() == i,
            reg.aliases@.len() == 0,
            reg.sources@.len() == 0,
            conses_apart(reg.conses@),
            old(errors)@.len() <= errors@.len(),
            tnames == old(datas).types(),
            cnames == old(datas).conses(),
            told == old(errors)@,
            decls == program.datas@,
            s0 == old(datas).scopes().len(),
            datas.scopes() == old(datas).scopes() + decl_scopes(program, i as nat),
            forall|j: int|
                0 <= j < i ==> #[trigger] data_entry(datas, s0, decls, reg.datas@, reg.conses@, j),
            forall|n: Ident| #[trigger] datas.type_place(n) == data_place(tnames, decls, i as int, n),
            forall|n: Ident|
                #[trigger] datas.cons_place(n) == variant_place(tnames, cnames, decls, i as int, 0, n),
            forall|j: int|
                0 <= j < i ==> #[trigger] data_registered(tnames, cnames, decls, reg.datas@, reg.conses@, j),
            errors@ == told + data_dups(tnames, cnames, decls, i as nat),
            errors@.len() == old(errors)@.len() ==> forall|j: int|
                0 <= j < i ==> (#[trigger] reg.datas@[j]) is Some,
            forall|j: int|
                0 <= j < i ==> (match #[trigger] reg.datas@[j] {
                    Some(d) => data_is(datas, d, program.datas@[j]),
                    None => true,
                }),
            forall|j: int, k: int|
                0 <= j < i && 0 <= k < reg.conses@[j]@.len() ==> (match (
                #[trigger] reg.conses@[j]@[k]) {
                    Some(c) => c < datas.conses().len(),
                    None => true,
                }),
        decreases program.datas.len() - i,
    {
        let decl = &program.datas[i];
        let ghost at = i as int;
        let ghost entered = *datas;
        let (scope, dups) = datas.declare_scope(&decl.gens);
        report_gens(&dups, errors);
        let mut variants: Vec<Option<usize>> = Vec::new();
        let ghost had = datas.datas();
        let ghost floor = datas.conses().len();
        let ghost scoped = *datas;
        let ghost gens = gen_errors(dups@);
        proof {
            assert(datas.scopes() =~= old(datas).scopes() + decl_scopes(program, (at + 1) as nat));
            assert(scope.0 == s0 + at);
            assert forall|j: int| 0 <= j < i implies #[trigger] data_entry(
                &scoped,
                s0,
                decls,
                reg.datas@,
                reg.conses@,
                j,
            ) by {
                assert(data_entry(&entered, s0, decls, reg.datas@, reg.conses@, j));
                lemma_data_entry_kept(&entered, &scoped, s0, decls, reg.datas@, reg.conses@, j);
            }
            assert forall|n: Ident| #[trigger] scoped.type_place(n) == data_place(tnames, decls, at, n) by {
                assert(scoped.type_place(n) == entered.type_place(n));
            }
            assert forall|n: Ident| #[trigger]
                scoped.cons_place(n) == variant_place(tnames, cnames, decls, at, 0, n) by {
                assert(scoped.cons_place(n) == entered.cons_place(n));
            }
            assert(scoped.type_place(decl.name) == data_place(tnames, decls, at, decl.name));
        }
        let id = match datas.declare_data(decl.name, decl.span, scope) {
            Err(d) => {
                errors.push(Error::DuplicateTypeName(d.name, d.old, d.new));
                proof {
                    assert(data_place(tnames, decls, at, decl.name) == Some(d.old));
                    assert forall|n: Ident| #[trigger]
                        datas.type_place(n) == data_place(tnames, decls, at + 1, n) by {
                        assert(datas.type_place(n) == scoped.type_place(n));
                    }
                    assert forall|n: Ident| #[trigger]
                        datas.cons_place(n) == variant_place(tnames, cnames, decls, at + 1, 0, n) by {
                        assert(datas.cons_place(n) == scoped.cons_place(n));
                        lemma_variants_skipped(
                            tnames,
                            cnames,
                            decls,
                            at,
                            decls[at].variants@.len() as int,
                            n,
                        );
                    }
                    assert(errors@ =~= told + data_dups(tnames, cnames, decls, (at + 1) as nat));
                    assert forall|j: int| 0 <= j < i implies #[trigger] data_entry(
                        datas,
                        s0,
                        decls,
                        reg.datas@,
                        reg.conses@,
                        j,
                    ) by {
                        assert(data_entry(&scoped, s0, decls, reg.datas@, reg.conses@, j));
                        assert(datas.type_of(decls[j].name) == scoped.type_of(decls[j].name));
                        lemma_data_entry_kept(
                            &scoped,
                            datas,
                            s0,
                            decls,
                            reg.datas@,
                            reg.conses@,
                            j,
                        );
                    }
                }
                None
            },
            Ok(id) => {
                proof {
                    let e = datas.types().last();
                    assert(datas.types() == scoped.types().push(e));
                    assert(data_kept(tnames, decls, at));
                    lemma_type_place_push(scoped, *datas, e, decl.name);
                    assert forall|j: int| 0 <= j < i implies #[trigger] data_entry(
                        datas,
                        s0,
                        decls,
                        reg.datas@,
                        reg.conses@,
                        j,
                    ) by {
                        assert(data_entry(&scoped, s0, decls, reg.datas@, reg.conses@, j));
                        lemma_type_place_push(scoped, *datas, e, decls[j].name);
                        match reg.datas@[j] {
                            Some(d) => {
                                assert(scoped.type_place(decls[j].name) is Some);
                                assert(datas.datas().subrange(0, had.len() as int)[d.0 as int]
                                    == datas.datas()[d.0 as int]);
                            },
                            None => {},
                        }
                        lemma_data_entry_kept(
                            &scoped,
                            datas,
                            s0,
                            decls,
                            reg.datas@,
                            reg.conses@,
                            j,
                        );
                    }
                    assert(datas.datas()[id.0 as int] == datas.datas().last());
                    assert(somes(variants@, 0) =~= Seq::<usize>::empty());
                    assert forall|n: Ident| #[trigger]
                        datas.type_place(n) == data_place(tnames, decls, at + 1, n) by {
                        lemma_type_place_push(scoped, *datas, e, n);
                        assert(scoped.type_place(n) == data_place(tnames, decls, at, n));
                    }
                    assert forall|n: Ident| #[trigger]
                        datas.cons_place(n) == variant_place(tnames, cnames, decls, at, 0, n) by {
                        assert(datas.cons_place(n) == scoped.cons_place(n));
                    }
                    assert(errors@ =~= told + data_dups(tnames, cnames, decls, at as nat) + gens
                        + variant_dups(tnames, cnames, decls, at, 0));
                }
                proof {
                    assert forall|j: int| 0 <= j < i implies (match #[trigger] reg.datas@[j] {
                        Some(d) => data_is(datas, d, program.datas@[j]),
                        None => true,
                    }) by {
                        match reg.datas@[j] {
                            Some(d) => {
                                assert(datas.datas().subrange(0, had.len() as int)[d.0 as int]
                                    == datas.datas()[d.0 as int]);
                            },
                            None => {},
                        }
                    }
                    assert(datas.datas()[id.0 as int] == datas.datas().last());
                }
                let mut k: usize = 0;
                while k < decl.variants.len()
                    invariant
                        k <= decl.variants.len(),
                        datas.wf(),
                        datas.aliases().len() == 0,
                        fields_ok(datas, 0),
                        data_is(datas, id, *decl),
                        reg.datas@.len() == i,
                        reg.conses@.len() == i,
                        i < program.datas.len(),
                        at == i,
                        *decl == decls[at],
                        tnames == old(datas).types(),
                        cnames == old(datas).conses(),
                        told == old(errors)@,
                        decls == program.datas@,
                        gens == gen_errors(dup_params(decl.gens@, decl.gens@.len() as int)),
                        data_kept(tnames, decls, at),
                        variants@.len() == k,
                        s0 == old(datas).scopes().len(),
                        datas.scopes() == old(datas).scopes() + decl_scopes(program, (at + 1) as nat),
                        forall|j: int|
                            0 <= j < i ==> #[trigger] data_entry(
                                datas,
                                s0,
                                decls,
                                reg.datas@,
                                reg.conses@,
                                j,
                            ),
                        forall|j: int|
                            0 <= j < i ==> (match #[trigger] reg.datas@[j] {
                                Some(d) => d != id,
                                None => true,
                            }),
                        datas.type_of(decl.name) == Some(
                            TypeEntry {
                                name: decl.name,
                                span: decl.span,
                                target: TypeRef::Data(id),
                            },
                        ),
                        datas.datas()[id.0 as int].gen_scope == GenScopeId((s0 + at) as usize),
                        datas.datas()[id.0 as int].cons@ == somes(variants@, k as nat),
                        forall|y: int|
                            0 <= y < k ==> (match #[trigger] variants@[y] {
                                Some(c) => cons_entry(datas, c, id, decls[at].variants@[y]),
                                None => true,
                            }),
                        forall|y: int|
                            0 <= y < k ==> ((#[trigger] variants@[y]) is Some) == (variant_place(
                                tnames,
                                cnames,
                                decls,
                                at,
                                y,
                                decls[at].variants@[y].name,
                            ) is None),
                        forall|n: Ident| #[trigger]
                            datas.type_place(n) == data_place(tnames, decls, at + 1, n),
                        forall|n: Ident| #[trigger]
                            datas.cons_place(n) == variant_place(tnames, cnames, decls, at, k as int, n),
                        forall|j: int|
                            0 <= j < i ==> #[trigger] data_registered(
                                tnames,
                                cnames,
                                decls,
                                reg.datas@,
                                reg.conses@,
                                j,
                            ),
                        errors@ == told + data_dups(tnames, cnames, decls, at as nat) + gens + variant_dups(
                            tnames,
                            cnames,
                            decls,
                            at,
                            k as nat,
                        ),
                        floor <= datas.conses().len(),
                        forall|j: int, x: int|
                            0 <= j < i && 0 <= x < reg.conses@[j]@.len() ==> (match (
                            #[trigger] reg.conses@[j]@[x]) {
                                Some(c) => c < floor,
                                None => true,
                            }),
                        forall|x: int|
                            0 <= x < variants@.len() ==> (match #[trigger] variants@[x] {
                                Some(c) => floor <= c,
                                None => true,
                            }),
                        forall|x: int, y: int|
                            0 <= x < variants@.len() && 0 <= y < variants@.len() && (
                            #[trigger] variants@[x]) is Some && variants@[x] == (
                            #[trigger] variants@[y]) ==> x == y,
                        old(errors)@.len() <= errors@.len(),
                        errors@.len() == old(errors)@.len() ==> forall|j: int|
                            0 <= j < i ==> (#[trigger] reg.datas@[j]) is Some,
                        forall|j: int|
                            0 <= j < i ==> (match #[trigger] reg.datas@[j] {
                                Some(d) => data_is(datas, d, program.datas@[j]),
                                None => true,
                            }),
                        forall|j: int, x: int|
                            0 <= j < i && 0 <= x < reg.conses@[j]@.len() ==> (match (
                            #[trigger] reg.conses@[j]@[x]) {
                                Some(c) => c < datas.conses().len(),
                                None => true,
                            }),
                        forall|x: int|
                            0 <= x < variants@.len() ==> (match #[trigger] variants@[x] {
                                Some(c) => c < datas.conses().len(),
                                None => true,
                            }),
                    decreases decl.variants.len() - k,
                {
                    let v = &decl.variants[k];
                    let ghost before = datas.conses();
                    let ghost prior = *datas;
                    let ghost y = k as int;
                    proof {
                        assert(prior.cons_place(v.name) == variant_place(tnames, cnames, decls, at, y, v.name));
                    }
                    match datas.declare_cons(id, v.name, v.span) {
                        Err(d) => {
                            errors.push(Error::DuplicateConsName(d.name, d.old, d.new));
                            let ghost vold = variants@;
                            variants.push(None);
                            proof {
                                lemma_somes_same(vold, variants@, y as nat);
                                assert(somes(variants@, (y + 1) as nat) == somes(vold, y as nat));
                                assert forall|j: int| 0 <= j < i implies #[trigger] data_entry(
                                    datas,
                                    s0,
                                    decls,
                                    reg.datas@,
                                    reg.conses@,
                                    j,
                                ) by {
                                    assert(data_entry(&prior, s0, decls, reg.datas@, reg.conses@, j));
                                    lemma_data_entry_kept(
                                        &prior,
                                        datas,
                                        s0,
                                        decls,
                                        reg.datas@,
                                        reg.conses@,
                                        j,
                                    );
                                }
                                assert forall|z: int| 0 <= z < y + 1 implies (
                                match #[trigger] variants@[z] {
                                    Some(c) => cons_entry(datas, c, id, decls[at].variants@[z]),
                                    None => true,
                                }) by {
                                    if z < y {
                                        assert(variants@[z] == vold[z]);
                                    }
                                }
                                assert(variant_place(tnames, cnames, decls, at, y, v.name) == Some(d.old));
                                assert forall|n: Ident| #[trigger]
                                    datas.type_place(n) == data_place(tnames, decls, at + 1, n) by {
                                    assert(datas.type_place(n) == prior.type_place(n));
                                }
                                assert forall|n: Ident| #[trigger]
                                    datas.cons_place(n) == variant_place(
                                    tnames,
                                    cnames,
                                    decls,
                                    at,
                                    y + 1,
                                    n,
                                ) by {
                                    assert(datas.cons_place(n) == prior.cons_place(n));
                                }
                                assert(errors@ =~= told + data_dups(tnames, cnames, decls, at as nat) + gens
                                    + variant_dups(tnames, cnames, decls, at, (y + 1) as nat));
                            }
                        },
                        Ok(c) => {
                            proof {
                                assert(variant_place(tnames, cnames, decls, at, y, v.name) is None);
                                assert(datas.conses().last().name == v.name);
                                assert forall|n: Ident| #[trigger]
                                    datas.type_place(n) == data_place(tnames, decls, at + 1, n) by {
                                    assert(datas.type_place(n) == prior.type_place(n));
                                }
                                assert forall|n: Ident| #[trigger]
                                    datas.cons_place(n) == variant_place(
                                    tnames,
                                    cnames,
                                    decls,
                                    at,
                                    y + 1,
                                    n,
                                ) by {
                                    lemma_cons_place_push(prior, *datas, n);
                                    assert(prior.cons_place(n) == variant_place(tnames, cnames, decls, at, y, n));
                                }
                                assert(errors@ =~= told + data_dups(tnames, cnames, decls, at as nat) + gens
                                    + variant_dups(tnames, cnames, decls, at, (y + 1) as nat));
                            }
                            proof {
                                assert forall|a: int, b: int|
                                    0 <= a < datas.conses().len() && 0 <= b < datas.conses()[a].fields@.len() implies (
                                #[trigger] datas.conses()[a].fields@[b]).0 < 0 by {
                                    if a < before.len() {
                                        assert(datas.conses().subrange(0, before.len() as int)[a]
                                            == datas.conses()[a]);
                                        assert(before[a].fields@[b].0 < 0);
                                    } else {
                                        assert(datas.conses()[a] == datas.conses().last());
                                    }
                                }
                            }
                            let ghost vold = variants@;
                            variants.push(Some(c));
                            proof {
                                lemma_somes_same(vold, variants@, y as nat);
                                assert(somes(variants@, (y + 1) as nat) == somes(vold, y as nat).push(c));
                                assert forall|x: int| 0 <= x < prior.conses().len() implies (
                                #[trigger] datas.conses()[x]) == prior.conses()[x] by {
                                    assert(datas.conses().subrange(0, prior.conses().len() as int)[x]
                                        == datas.conses()[x]);
                                }
                                assert(datas.conses()[c as int] == datas.conses().last());
                                assert forall|j: int| 0 <= j < i implies #[trigger] data_entry(
                                    datas,
                                    s0,
                                    decls,
                                    reg.datas@,
                                    reg.conses@,
                                    j,
                                ) by {
                                    assert(data_entry(&prior, s0, decls, reg.datas@, reg.conses@, j));
                                    match reg.datas@[j] {
                                        Some(d) => {
                                            assert(d != id);
                                            assert(datas.datas()[d.0 as int]
                                                == prior.datas()[d.0 as int]);
                                        },
                                        None => {},
                                    }
                                    lemma_data_entry_kept(
                                        &prior,
                                        datas,
                                        s0,
                                        decls,
                                        reg.datas@,
                                        reg.conses@,
                                        j,
                                    );
                                }
                                assert forall|z: int| 0 <= z < y + 1 implies (
                                match #[trigger] variants@[z] {
                                    Some(e) => cons_entry(datas, e, id, decls[at].variants@[z]),
                                    None => true,
                                }) by {
                                    if z < y {
                                        assert(variants@[z] == vold[z]);
                                        match vold[z] {
                                            Some(e) => {
                                                assert(cons_entry(&prior, e, id, decls[at].variants@[z]));
                                            },
                                            None => {},
                                        }
                                    }
                                }
                            }
                        },
                    }
                    k += 1;
                }
                proof {
                    assert forall|n: Ident| #[trigger]
                        datas.cons_place(n) == variant_place(tnames, cnames, decls, at + 1, 0, n) by {
                        assert(datas.cons_place(n) == variant_place(
                            tnames,
                            cnames,
                            decls,
                            at,
                            decls[at].variants@.len() as int,
                            n,
                        ));
                    }
                    assert(errors@ =~= told + data_dups(tnames, cnames, decls, (at + 1) as nat));
                }
                Some(id)
            },
        };
        let ghost done = reg.conses@;
        let ghost fresh = variants@;
        proof {
            assert forall|x: int| 0 <= x < fresh.len() implies (match #[trigger] fresh[x] {
                Some(c) => floor <= c,
                None => true,
            }) by {}
            assert forall|x: int, y: int|
                0 <= x < fresh.len() && 0 <= y < fresh.len() && (#[trigger] fresh[x]) is Some
                    && fresh[x] == (#[trigger] fresh[y]) implies x == y by {}
        }
        let ghost regd = reg.datas@;
        reg.datas.push(id);
        reg.conses.push(variants);
        proof {
            assert forall|j: int| 0 <= j < i + 1 implies #[trigger] data_entry(
                datas,
                s0,
                decls,
                reg.datas@,
                reg.conses@,
                j,
            ) by {
                if j < i {
                    assert(data_entry(datas, s0, decls, regd, done, j));
                    assert(reg.datas@[j] == regd[j]);
                    assert(reg.conses@[j] == done[j]);
                } else {
                    assert(reg.conses@[j]@ == fresh);
                    assert(reg.datas@[j] == id);
                }
            }
            assert forall|j: int| 0 <= j < i + 1 implies #[trigger] data_registered(
                tnames,
                cnames,
                decls,
                reg.datas@,
                reg.conses@,
                j,
            ) by {
                if j < i {
                    assert(data_registered(tnames, cnames, decls, regd, done, j));
                    assert(reg.datas@[j] == regd[j]);
                    assert(reg.conses@[j] == done[j]);
                } else {
                    assert(reg.conses@[j]@ == fresh);
                }
            }
            assert forall|j: int, k: int, x: int, y: int|
                0 <= j < reg.conses@.len() && 0 <= k < reg.conses@[j]@.len() && 0 <= x
                    < reg.conses@.len() && 0 <= y < reg.conses@[x]@.len() && (
                #[trigger] reg.conses@[j]@[k]) is Some && reg.conses@[j]@[k] == (
                #[trigger] reg.conses@[x]@[y]) implies j == x && k == y by {
                if j < i {
                    assert(reg.conses@[j] == done[j]);
                    assert(done[j]@[k] is Some);
                } else {
                    assert(reg.conses@[j]@ == fresh);
                    assert(fresh[k] is Some);
                }
                if x < i {
                    assert(reg.conses@[x] == done[x]);
                    assert(done[x]@[y] is Some);
                } else {
                    assert(reg.conses@[x]@ == fresh);
                    assert(fresh[y] is Some);
                }
            }
            assert forall|j: int, k: int|
                0 <= j < i + 1 && 0 <= k < reg.conses@[j]@.len() implies (match (
            #[trigger] reg.conses@[j]@[k]) {
                Some(c) => c < datas.conses().len(),
                None => true,
            }) by {
                if j < i {
                    assert(reg.conses@[j] == done[j]);
                }
            }
        }
        i += 1;
    }
    let mut a: usize = 0;
    assert(errors@ =~= told + data_dups(tnames, cnames, decls, decls.len()) + alias_dups(tnames, program, 0));
    while a < program.aliases.len()
        invariant
            a <= program.aliases.len(),
            datas.wf(),
            fields_ok(datas, 0),
            reg.datas@.len() == program.datas@.len(),
            reg.conses@.len() == program.datas@.len(),
            reg.aliases@.len() == a,
            reg.sources@.len() == datas.aliases().len(),
            sources_ok(program.aliases@, reg.sources@),
            conses_apart(reg.conses@),
            aliases_apart(reg.aliases@),
            old(errors)@.len() <= errors@.len(),
            tnames == old(datas).types(),
            cnames == old(datas).conses(),
            told == old(errors)@,
            decls == program.datas@,
            forall|n: Ident| #[trigger] datas.type_place(n) == alias_place(tnames, program, a as int, n),
            forall|n: Ident| #[trigger]
                datas.cons_place(n) == variant_place(tnames, cnames, decls, decls.len() as int, 0, n),
            s0 == old(datas).scopes().len(),
            datas.scopes() == old(datas).scopes() + decl_scopes(program, (decls.len() + a) as nat),
            forall|j: int|
                0 <= j < decls.len() ==> #[trigger] data_entry(
                    datas,
                    s0,
                    decls,
                    reg.datas@,
                    reg.conses@,
                    j,
                ),
            forall|x: int|
                0 <= x < a ==> #[trigger] alias_entry(
                    datas,
                    (s0 + decls.len()) as nat,
                    program,
                    reg.aliases@,
                    x,
                ),
            forall|j: int|
                0 <= j < program.datas@.len() ==> #[trigger] data_registered(
                    tnames,
                    cnames,
                    decls,
                    reg.datas@,
                    reg.conses@,
                    j,
                ),
            forall|j: int|
                0 <= j < a ==> ((#[trigger] reg.aliases@[j]) is Some) == (alias_place(
                    tnames,
                    program,
                    j,
                    program.aliases@[j].name,
                ) is None),
            errors@ == told + data_dups(tnames, cnames, decls, decls.len()) + alias_dups(
                tnames,
                program,
                a as nat,
            ),
            errors@.len() == old(errors)@.len() ==> forall|j: int|
                0 <= j < reg.datas@.len() ==> (#[trigger] reg.datas@[j]) is Some,
            errors@.len() == old(errors)@.len() ==> forall|j: int|
                0 <= j < a ==> (#[trigger] reg.aliases@[j]) is Some,
            forall|j: int|
                0 <= j < reg.datas@.len() ==> (match #[trigger] reg.datas@[j] {
                    Some(d) => data_is(datas, d, program.datas@[j]),
                    None => true,
                }),
            forall|j: int|
                0 <= j < a ==> (match #[trigger] reg.aliases@[j] {
                    Some(x) => alias_is(datas, x, program.aliases@[j]),
                    None => true,
                }),
            forall|j: int, k: int|
                0 <= j < reg.conses@.len() && 0 <= k < reg.conses@[j]@.len() ==> (match (
                #[trigger] reg.conses@[j]@[k]) {
                    Some(c) => c < datas.conses().len(),
                    None => true,
                }),
        decreases program.aliases.len() - a,
    {
        let decl = &program.aliases[a];
        let ghost at = a as int;
        let ghost entered = *datas;
        let ghost rega = reg.aliases@;
        let (scope, dups) = datas.declare_scope(&decl.gens);
        report_gens(&dups, errors);
        let ghost scoped = *datas;
        proof {
            assert(datas.scopes() =~= old(datas).scopes() + decl_scopes(
                program,
                (decls.len() + at + 1) as nat,
            ));
            assert(scope.0 == s0 + decls.len() + at);
            assert forall|n: Ident| #[trigger]
                scoped.type_place(n) == alias_place(tnames, program, at, n) by {
                assert(scoped.type_place(n) == entered.type_place(n));
            }
            assert(scoped.type_place(decl.name) == alias_place(tnames, program, at, decl.name));
        }
        match datas.declare_alias(decl.name, decl.span, scope) {
            Err(d) => {
                errors.push(Error::DuplicateTypeName(d.name, d.old, d.new));
                reg.aliases.push(None);
                proof {
                    assert(alias_place(tnames, program, at, decl.name) == Some(d.old));
                    assert forall|n: Ident| #[trigger]
                        datas.type_place(n) == alias_place(tnames, program, at + 1, n) by {
                        assert(datas.type_place(n) == scoped.type_place(n));
                    }
                }
            },
            Ok(id) => {
                reg.aliases.push(Some(id));
                reg.sources.push(a);
                proof {
                    let e = datas.types().last();
                    assert(datas.types() == scoped.types().push(e));
                    assert forall|n: Ident| #[trigger]
                        datas.type_place(n) == alias_place(tnames, program, at + 1, n) by {
                        lemma_type_place_push(scoped, *datas, e, n);
                        assert(scoped.type_place(n) == alias_place(tnames, program, at, n));
                    }
                }
            },
        }
        proof {
            let e = datas.types().last();
            assert forall|n: Ident| #[trigger]
                datas.cons_place(n) == variant_place(tnames, cnames, decls, decls.len() as int, 0, n) by {
                assert(datas.cons_place(n) == entered.cons_place(n));
            }
            assert forall|j: int| 0 <= j < decls.len() implies #[trigger] data_entry(
                datas,
                s0,
                decls,
                reg.datas@,
                reg.conses@,
                j,
            ) by {
                assert(data_entry(&entered, s0, decls, reg.datas@, reg.conses@, j));
                assert(scoped.type_of(decls[j].name) == entered.type_of(decls[j].name));
                if reg.aliases@[at] is Some {
                    lemma_type_place_push(scoped, *datas, e, decls[j].name);
                    if reg.datas@[j] is Some {
                        assert(scoped.type_place(decls[j].name) is Some);
                        assert(scoped.type_place(program.aliases@[at].name) is None);
                    }
                } else {
                    assert(datas.type_of(decls[j].name) == scoped.type_of(decls[j].name));
                }
                lemma_data_entry_kept(&entered, datas, s0, decls, reg.datas@, reg.conses@, j);
            }
            assert forall|x: int| 0 <= x < at + 1 implies #[trigger] alias_entry(
                datas,
                (s0 + decls.len()) as nat,
                program,
                reg.aliases@,
                x,
            ) by {
                if x < at {
                    assert(reg.aliases@[x] == rega[x]);
                    assert(alias_entry(&entered, (s0 + decls.len()) as nat, program, rega, x));
                    if reg.aliases@[at] is Some {
                        lemma_type_place_push(scoped, *datas, e, program.aliases@[x].name);
                        if rega[x] is Some {
                            assert(scoped.type_place(program.aliases@[x].name) is Some);
                        }
                    }
                } else if reg.aliases@[at] is Some {
                    lemma_type_place_push(scoped, *datas, e, program.aliases@[at].name);
                }
            }
            assert(errors@ =~= told + data_dups(tnames, cnames, decls, decls.len()) + alias_dups(
                tnames,
                program,
                (at + 1) as nat,
            ));
            assert forall|j: int| 0 <= j < at + 1 implies ((#[trigger] reg.aliases@[j]) is Some) == (
            alias_place(tnames, program, j, program.aliases@[j].name) is None) by {
                if j < at {
                    assert(reg.aliases@[j] == rega[j]);
                }
            }
        }
        a += 1;
    }
    reg
}

/// The types that the written types `ts` stand for, each with the error type where
/// it stands for none.
fn elaborate_each(
    types: &mut Types,
    datas: &Datas,
    decls: &Vec<AliasDecl>,
    index: &Vec<usize>,
    ts: &Vec<TypeExpr>,
    env: &Vec<(Ident, TyId)>,
    errors: &mut Vec<Error>,
) -> (ids: Vec<TyId>)
    requires
        old(types).wf(),
        datas.wf(),
        sources_ok(decls@, index@),
        env_ok(old(types)@, env@),
    ensures
        final(types).wf(),
        extends(old(types)@, final(types)@),
        ids@.len() == ts@.len(),
        forall|k: int|
            0 <= k < ids@.len() ==> (#[trigger] ids@[k]).0 < final(types)@.len() && shape_of(
                final(types)@,
                ids@[k].0 as nat,
            ) == shape_or_error(
                expand(
                    *datas,
                    decls@,
                    index@,
                    ts@[k],
                    env_shapes(old(types)@, env@),
                    Seq::empty(),
                ),
            ),
        final(errors)@ == old(errors)@ + reports_of(
            *datas,
            decls@,
            index@,
            ts@,
            env_shapes(old(types)@, env@),
            ids@,
            ts@.len(),
        ),
{
    let ghost start = types@;
    let ghost envs = env_shapes(start, env@);
    let mut ids: Vec<TyId> = Vec::new();
    let mut active: Vec<AliasId> = Vec::new();
    let mut k: usize = 0;
    assert(errors@ =~= old(errors)@ + reports_of(*datas, decls@, index@, ts@, envs, ids@, 0));
    while k < ts.len()
        invariant
            k <= ts.len(),
            types.wf(),
            datas.wf(),
            sources_ok(decls@, index@),
            extends(start, types@),
            env_ok(types@, env@),
            env_shapes(types@, env@) == envs,
            active@ == Seq::<AliasId>::empty(),
            ids@.len() == k,
            forall|j: int|
                0 <= j < k ==> (#[trigger] ids@[j]).0 < types@.len() && shape_of(
                    types@,
                    ids@[j].0 as nat,
                ) == shape_or_error(expand(*datas, decls@, index@, ts@[j], envs, Seq::empty())),
            errors@ == old(errors)@ + reports_of(*datas, decls@, index@, ts@, envs, ids@, k as nat),
        decreases ts.len() - k,
    {
        let ghost before = types@;
        let ghost had = ids@;
        let ghost told = errors@;
        let id = elaborate_or_report(types, datas, decls, index, &ts[k], env, &mut active, errors);
        proof {
            lemma_extends_trans(start, before, types@);
            lemma_env_extends(before, types@, env@);
            assert forall|j: int| 0 <= j < k implies shape_of(types@, (#[trigger] had[j]).0 as nat)
                == shape_of(before, had[j].0 as nat) by {
                lemma_shape_extends(before, types@, had[j].0 as nat);
            }
        }
        ids.push(id);
        proof {
            lemma_reports_of_same(*datas, decls@, index@, ts@, envs, had, ids@, k as nat);
            assert(errors@ =~= old(errors)@ + reports_of(
                *datas,
                decls@,
                index@,
                ts@,
                envs,
                ids@,
                (k + 1) as nat,
            ));
        }
        k += 1;
    }
    ids
}

/// Whether the registry `now` is the registry `before` with types filled in: it
/// declares the same names, and each constructor and each alias is the one it was.
pub open spec fn filled_from(before: Datas, now: Datas) -> bool {
    &&& same_names(now, before)
    &&& now.conses().len() == before.conses().len()
    &&& forall|c: int|
        #![trigger now.conses()[c]]
        #![trigger before.conses()[c]]
        0 <= c < now.conses().len() ==> now.conses()[c].name == before.conses()[c].name
            && now.conses()[c].span == before.conses()[c].span && now.conses()[c].data
            == before.conses()[c].data
    &&& forall|a: int|
        #![trigger now.aliases()[a]]
        #![trigger before.aliases()[a]]
        0 <= a < now.aliases().len() ==> now.aliases()[a].name == before.aliases()[a].name
            && now.aliases()[a].span == before.aliases()[a].span
}

/// The generic parameters of the list `scope` of the registry, each with its shape.
pub open spec fn scope_env(datas: Datas, scope: GenScopeId) -> Seq<(Ident, Shape)> {
    gen_shapes(datas.scopes()[scope.0 as int], scope)
}

/// Whether the types `ids` of the store `tys` are the types that the written types
/// `ts` stand for, with the generic parameters `env` in scope: each has the shape
/// that the written type expands to, or that of the error type where the written
/// type stands for none.
pub open spec fn stand_for(
    tys: Seq<TyView>,
    ids: Seq<TyId>,
    datas: Datas,
    decls: Seq<AliasDecl>,
    index: Seq<usize>,
    ts: Seq<TypeExpr>,
    env: Seq<(Ident, Shape)>,
) -> bool {
    &&& ids.len() == ts.len()
    &&& forall|f: int|
        0 <= f < ids.len() ==> (#[trigger] ids[f]).0 < tys.len() && shape_of(tys, ids[f].0 as nat)
            == shape_or_error(expand(datas, decls, index, ts[f], env, Seq::empty()))
}

/// Whether the constructor that is registered for the variant `y` of the data type
/// `x` of the program, if one is, has in `now` the fields that the variant is written
/// with, in terms of the generic parameters of the data type.
pub open spec fn variant_filled(
    now: Datas,
    before: Datas,
    tys: Seq<TyView>,
    program: &Program,
    reg: &Registered,
    x: int,
    y: int,
) -> bool {
    match (reg.datas@[x], reg.conses@[x]@[y]) {
        (Some(d), Some(c)) => stand_for(
            tys,
            now.conses()[c as int].fields@,
            before,
            program.aliases@,
            reg.sources@,
            program.datas@[x].variants@[y].fields@,
            scope_env(before, before.datas()[d.0 as int].gen_scope),
        ),
        _ => true,
    }
}

/// Whether that holds of each variant before the variant `k` of the data type `i`.
pub open spec fn conses_filled(
    now: Datas,
    before: Datas,
    tys: Seq<TyView>,
    program: &Program,
    reg: &Registered,
    i: int,
    k: int,
) -> bool {
    forall|x: int, y: int|
        0 <= x < program.datas@.len() && 0 <= y < program.datas@[x].variants@.len() && y
            < reg.conses@[x]@.len() && (x < i || (x == i && y < k)) ==> #[trigger] variant_filled(
            now,
            before,
            tys,
            program,
            reg,
            x,
            y,
        )
}

/// Whether the alias that is registered for the declaration `j` of the program, if
/// one is, stands in `now` for the type that the declaration is written with, in
/// terms of the generic parameters of the alias; a mention of the alias itself in
/// that type stands for no type.
pub open spec fn alias_filled(
    now: Datas,
    before: Datas,
    tys: Seq<TyView>,
    program: &Program,
    reg: &Registered,
    j: int,
) -> bool {
    match reg.aliases@[j] {
        Some(a) => {
            &&& now.aliases()[a.0 as int].ty is Some
            &&& now.aliases()[a.0 as int].ty.unwrap().0 < tys.len()
            &&& shape_of(tys, now.aliases()[a.0 as int].ty.unwrap().0 as nat) == shape_or_error(
                expand(
                    before,
                    program.aliases@,
                    reg.sources@,
                    program.aliases@[j].ty,
                    scope_env(before, before.aliases()[a.0 as int].gen_scope),
                    seq![a],
                ),
            )
        },
        None => true,
    }
}

/// Whether that holds of each of the first `n` declarations of aliases.
pub open spec fn aliases_filled(
    now: Datas,
    before: Datas,
    tys: Seq<TyView>,
    program: &Program,
    reg: &Registered,
    n: int,
) -> bool {
    forall|j: int|
        0 <= j < n && j < program.aliases@.len() ==> #[trigger] alias_filled(
            now,
            before,
            tys,
            program,
            reg,
            j,
        )
}

/// The number of the variants of the data type `x` of the program that take part:
/// those for which the registration holds an entry.
pub open spec fn variants_seen(program: &Program, reg: &Registered, x: int) -> nat {
    if program.datas@[x].variants@.len() <= reg.conses@[x]@.len() {
        program.datas@[x].variants@.len()
    } else {
        reg.conses@[x]@.len()
    }
}

/// The diagnostics for the first `k` variants of the data type `x` of the program, in
/// their order: for each field of a registered constructor that is written as what
/// stands for no type, the reason, with the field of the constructor in `now` as the
/// type that stands in for it.
pub open spec fn variant_reports(
    now: Datas,
    before: Datas,
    program: &Program,
    reg: &Registered,
    x: int,
    k: nat,
) -> Seq<Error>
    decreases k,
{
    if k == 0 || k > variants_seen(program, reg, x) {
        Seq::empty()
    } else {
        let sofar = variant_reports(now, before, program, reg, x, (k - 1) as nat);
        match (reg.datas@[x], reg.conses@[x]@[k - 1]) {
            (Some(d), Some(c)) => sofar + reports_of(
                before,
                program.aliases@,
                reg.sources@,
                program.datas@[x].variants@[k - 1].fields@,
                scope_env(before, before.datas()[d.0 as int].gen_scope),
                now.conses()[c as int].fields@,
                program.datas@[x].variants@[k - 1].fields@.len(),
            ),
            _ => sofar,
        }
    }
}

/// The diagnostics for the first `i` data types of the program, in their order.
pub open spec fn data_reports(
    now: Datas,
    before: Datas,
    program: &Program,
    reg: &Registered,
    i: nat,
) -> Seq<Error>
    decreases i,
{
    if i == 0 || i > program.datas@.len() {
        Seq::empty()
    } else {
        data_reports(now, before, program, reg, (i - 1) as nat) + variant_reports(
            now,
            before,
            program,
            reg,
            i - 1,
            variants_seen(program, reg, i - 1),
        )
    }
}

/// The diagnostics for the first `n` aliases of the program, in their order: for each
/// registered alias that is written as what stands for no type, the reason, with the
/// type of the alias in `now` as the type that stands in for it.
pub open spec fn alias_reports(
    now: Datas,
    before: Datas,
    program: &Program,
    reg: &Registered,
    n: nat,
) -> Seq<Error>
    decreases n,
{
    if n == 0 || n > program.aliases@.len() {
        Seq::empty()
    } else {
        let sofar = alias_reports(now, before, program, reg, (n - 1) as nat);
        match reg.aliases@[n - 1] {
            Some(a) => match expand(
                before,
                program.aliases@,
                reg.sources@,
                program.aliases@[n - 1].ty,
                scope_env(before, before.aliases()[a.0 as int].gen_scope),
                seq![a],
            ) {
                Err(e) => sofar.push(elab_error_of(e, now.aliases()[a.0 as int].ty.unwrap())),
                Ok(_) => sofar,
            },
            None => sofar,
        }
    }
}

/// The diagnostics for written types are the same in registries that declare the same
/// names.
pub proof fn lemma_reports_of_names(
    a: Datas,
    b: Datas,
    decls: Seq<AliasDecl>,
    index: Seq<usize>,
    ts: Seq<TypeExpr>,
    env: Seq<(Ident, Shape)>,
    ids: Seq<TyId>,
    n: nat,
)
    requires
        a.wf(),
        same_names(a, b),
    ensures
        reports_of(a, decls, index, ts, env, ids, n) == reports_of(b, decls, index, ts, env, ids, n),
    decreases n,
{
    if n > 0 && n <= ts.len() {
        lemma_reports_of_names(a, b, decls, index, ts, env, ids, (n - 1) as nat);
        lemma_expand_same(a, b, decls, index, ts[n - 1], env, Seq::empty());
    }
}

/// The diagnostics for the variants of a data type depend on the fields of the
/// constructors that are registered for them only.
pub proof fn lemma_variant_reports_same(
    now: Datas,
    next: Datas,
    before: Datas,
    program: &Program,
    reg: &Registered,
    x: int,
    k: nat,
)
    requires
        forall|y: int|
            0 <= y < k && y < variants_seen(program, reg, x) ==> (match #[trigger] reg.conses@[x]@[y] {
                Some(c) => next.conses()[c as int].fields@ == now.conses()[c as int].fields@,
                None => true,
            }),
    ensures
        variant_reports(next, before, program, reg, x, k) == variant_reports(
            now,
            before,
            program,
            reg,
            x,
            k,
        ),
    decreases k,
{
    if k > 0 && k <= variants_seen(program, reg, x) {
        lemma_variant_reports_same(now, next, before, program, reg, x, (k - 1) as nat);
        let at = reg.conses@[x]@[k - 1];
        assert(at is Some ==> next.conses()[at.unwrap() as int].fields@
            == now.conses()[at.unwrap() as int].fields@);
    }
}

/// A data type that is not registered has no diagnostics for its variants.
pub proof fn lemma_variant_reports_none(
    now: Datas,
    before: Datas,
    program: &Program,
    reg: &Registered,
    x: int,
    k: nat,
)
    requires
        reg.datas@[x] is None,
    ensures
        variant_reports(now, before, program, reg, x, k) == Seq::<Error>::empty(),
    decreases k,
{
    if k > 0 {
        lemma_variant_reports_none(now, before, program, reg, x, (k - 1) as nat);
    }
}

/// The diagnostics for the data types depend on the fields of the constructors that
/// are registered for their variants only.
pub proof fn lemma_data_reports_same(
    now: Datas,
    next: Datas,
    before: Datas,
    program: &Program,
    reg: &Registered,
    i: nat,
)
    requires
        forall|x: int, y: int|
            0 <= x < i && x < program.datas@.len() && 0 <= y < variants_seen(program, reg, x) ==> (
            match #[trigger] reg.conses@[x]@[y] {
                Some(c) => next.conses()[c as int].fields@ == now.conses()[c as int].fields@,
                None => true,
            }),
    ensures
        data_reports(next, before, program, reg, i) == data_reports(now, before, program, reg, i),
    decreases i,
{
    if i > 0 && i <= program.datas@.len() {
        lemma_data_reports_same(now, next, before, program, reg, (i - 1) as nat);
        lemma_variant_reports_same(
            now,
            next,
            before,
            program,
            reg,
            i - 1,
            variants_seen(program, reg, i - 1),
        );
    }
}

/// The diagnostics for the aliases depend on the types of the aliases that are
/// registered for them only.
pub proof fn lemma_alias_reports_same(
    now: Datas,
    next: Datas,
    before: Datas,
    program: &Program,
    reg: &Registered,
    n: nat,
)
    requires
        forall|j: int|
            0 <= j < n && j < program.aliases@.len() ==> (match #[trigger] reg.aliases@[j] {
                Some(a) => next.aliases()[a.0 as int].ty == now.aliases()[a.0 as int].ty,
                None => true,
            }),
    ensures
        alias_reports(next, before, program, reg, n) == alias_reports(now, before, program, reg, n),
    decreases n,
{
    if n > 0 && n <= program.aliases@.len() {
        lemma_alias_reports_same(now, next, before, program, reg, (n - 1) as nat);
        let at = reg.aliases@[n - 1];
        assert(at is Some ==> next.aliases()[at.unwrap().0 as int].ty
            == now.aliases()[at.unwrap().0 as int].ty);
    }
}

/// The fields of a constructor stay what a variant is written with when the store
/// grows and the constructor is left as it is.
pub proof fn lemma_variant_kept(
    now: Datas,
    next: Datas,
    before: Datas,
    tys: Seq<TyView>,
    more: Seq<TyView>,
    program: &Program,
    reg: &Registered,
    x: int,
    y: int,
)
    requires
        variant_filled(now, before, tys, program, reg, x, y),
        extends(tys, more),
        reg.conses@[x]@[y] matches Some(c) ==> next.conses()[c as int].fields@
            == now.conses()[c as int].fields@,
    ensures
        variant_filled(next, before, more, program, reg, x, y),
{
    match (reg.datas@[x], reg.conses@[x]@[y]) {
        (Some(d), Some(c)) => {
            let ids = now.conses()[c as int].fields@;
            assert forall|f: int| 0 <= f < ids.len() implies shape_of(
                more,
                (#[trigger] ids[f]).0 as nat,
            ) == shape_of(tys, ids[f].0 as nat) by {
                lemma_shape_extends(tys, more, ids[f].0 as nat);
            }
        },
        _ => {},
    }
}

/// An alias stays what its declaration is written with when the store grows and
/// the alias is left as it is.
pub proof fn lemma_alias_kept(
    now: Datas,
    next: Datas,
    before: Datas,
    tys: Seq<TyView>,
    more: Seq<TyView>,
    program: &Program,
    reg: &Registered,
    j: int,
)
    requires
        alias_filled(now, before, tys, program, reg, j),
        extends(tys, more),
        reg.aliases@[j] matches Some(a) ==> next.aliases()[a.0 as int].ty
            == now.aliases()[a.0 as int].ty,
    ensures
        alias_filled(next, before, more, program, reg, j),
{
    match reg.aliases@[j] {
        Some(a) => {
            lemma_shape_extends(tys, more, now.aliases()[a.0 as int].ty.unwrap().0 as nat);
        },
        None => {},
    }
}

/// Fills in what the registered names of `program` stand for: the types of the fields
/// of each constructor, and the type that each alias stands for. A written type that
/// stands for no type is reported, and the error type stands in for it.
#[verifier::rlimit(80)]
pub fn define_types(
    program: &Program,
    types: &mut Types,
    datas: &mut Datas,
    reg: &Registered,
    errors: &mut Vec<Error>,
)
    requires
        old(types).wf(),
        old(datas).wf(),
        reg.wf(program, old(datas)),
        fields_ok(old(datas), old(types)@.len()),
    ensures
        final(types).wf(),
        final(datas).wf(),
        reg.wf(program, final(datas)),
        extends(old(types)@, final(types)@),
        fields_ok(final(datas), final(types)@.len()),
        old(errors)@.len() <= final(errors)@.len(),
        filled_from(*old(datas), *final(datas)),
        conses_filled(
            *final(datas),
            *old(datas),
            final(types)@,
            program,
            reg,
            program.datas@.len() as int,
            0,
        ),
        aliases_filled(
            *final(datas),
            *old(datas),
            final(types)@,
            program,
            reg,
            program.aliases@.len() as int,
        ),
        final(errors)@ == old(errors)@ + data_reports(
            *final(datas),
            *old(datas),
            program,
            reg,
            program.datas@.len(),
        ) + alias_reports(*final(datas), *old(datas), program, reg, program.aliases@.len()),
{
    let ghost start = types@;
    let ghost first = *datas;
    let ghost told = errors@;
    let mut i: usize = 0;
    assert(errors@ =~= told + data_reports(*datas, first, program, reg, 0));
    while i < program.datas.len()
        invariant
            i <= program.datas.len(),
            types.wf(),
            datas.wf(),
            reg.wf(program, datas),
            extends(start, types@),
            fields_ok(datas, types@.len()),
            old(errors)@.len() <= errors@.len(),
            first == *old(datas),
            told == old(errors)@,
            filled_from(first, *datas),
            conses_filled(*datas, first, types@, program, reg, i as int, 0),
            errors@ == told + data_reports(*datas, first, program, reg, i as nat),
        decreases program.datas.len() - i,
    {
        let decl = &program.datas[i];
        match reg.datas[i] {
            None => {
                proof {
                    lemma_variant_reports_none(
                        *datas,
                        first,
                        program,
                        reg,
                        i as int,
                        variants_seen(program, reg, i as int),
                    );
                    assert(errors@ =~= told + data_reports(
                        *datas,
                        first,
                        program,
                        reg,
                        (i + 1) as nat,
                    ));
                }
                assert forall|x: int, y: int|
                    0 <= x < program.datas@.len() && 0 <= y < program.datas@[x].variants@.len()
                        && y < reg.conses@[x]@.len() && x < i + 1 implies #[trigger] variant_filled(
                    *datas,
                    first,
                    types@,
                    program,
                    reg,
                    x,
                    y,
                ) by {}
            },
            Some(d) => {
                let scope = datas.get_data(d).gen_scope;
                let params = scope_params(datas, scope);
                let ghost before = types@;
                let env = gen_env(types, &params, scope);
                proof {
                    lemma_extends_trans(start, before, types@);
                    assert forall|x: int, y: int|
                        0 <= x < program.datas@.len() && 0 <= y
                            < program.datas@[x].variants@.len() && y < reg.conses@[x]@.len() && x
                            < i implies #[trigger] variant_filled(
                        *datas,
                        first,
                        types@,
                        program,
                        reg,
                        x,
                        y,
                    ) by {
                        assert(variant_filled(*datas, first, before, program, reg, x, y));
                        lemma_variant_kept(*datas, *datas, first, before, types@, program, reg, x, y);
                    }
                }
                let mut k: usize = 0;
                assert(errors@ =~= told + data_reports(*datas, first, program, reg, i as nat)
                    + variant_reports(*datas, first, program, reg, i as int, 0));
                while k < decl.variants.len() && k < reg.conses[i].len()
                    invariant
                        i < program.datas.len(),
                        k <= variants_seen(program, reg, i as int),
                        told == old(errors)@,
                        errors@ == told + data_reports(*datas, first, program, reg, i as nat)
                            + variant_reports(*datas, first, program, reg, i as int, k as nat),
                        *decl == program.datas@[i as int],
                        reg.datas@[i as int] == Some(d),
                        scope == first.datas()[d.0 as int].gen_scope,
                        types.wf(),
                        datas.wf(),
                        reg.wf(program, datas),
                        extends(start, types@),
                        env_ok(types@, env@),
                        env_shapes(types@, env@) == scope_env(first, scope),
                        fields_ok(datas, types@.len()),
                        old(errors)@.len() <= errors@.len(),
                        first == *old(datas),
                        filled_from(first, *datas),
                        conses_filled(*datas, first, types@, program, reg, i as int, k as int),
                    decreases decl.variants.len() - k,
                {
                    let ghost now = *datas;
                    let ghost mid = types@;
                    let ghost heard = errors@;
                    match reg.conses[i][k] {
                        None => {
                            assert(reg.conses@[i as int]@[k as int] is None);
                            assert(variant_reports(
                                *datas,
                                first,
                                program,
                                reg,
                                i as int,
                                (k + 1) as nat,
                            ) == variant_reports(*datas, first, program, reg, i as int, k as nat));
                        },
                        Some(c) => {
                            let fields = elaborate_each(
                                types,
                                datas,
                                &program.aliases,
                                &reg.sources,
                                &decl.variants[k].fields,
                                &env,
                                errors,
                            );
                            proof {
                                lemma_extends_trans(start, mid, types@);
                                lemma_env_extends(mid, types@, env@);
                                assert(reg.conses@[i as int]@[k as int] == Some(c));
                                let ts = decl.variants@[k as int].fields@;
                                assert forall|f: int| 0 <= f < fields@.len() implies expand(
                                    now,
                                    program.aliases@,
                                    reg.sources@,
                                    #[trigger] ts[f],
                                    scope_env(first, scope),
                                    Seq::empty(),
                                ) == expand(
                                    first,
                                    program.aliases@,
                                    reg.sources@,
                                    ts[f],
                                    scope_env(first, scope),
                                    Seq::empty(),
                                ) by {
                                    lemma_expand_same(
                                        now,
                                        first,
                                        program.aliases@,
                                        reg.sources@,
                                        ts[f],
                                        scope_env(first, scope),
                                        Seq::empty(),
                                    );
                                }
                                assert(stand_for(
                                    types@,
                                    fields@,
                                    first,
                                    program.aliases@,
                                    reg.sources@,
                                    ts,
                                    scope_env(first, scope),
                                ));
                                lemma_reports_of_names(
                                    now,
                                    first,
                                    program.aliases@,
                                    reg.sources@,
                                    ts,
                                    scope_env(first, scope),
                                    fields@,
                                    ts.len(),
                                );
                            }
                            let ghost conses = datas.conses();
                            datas.define_cons(c, fields);
                            proof {
                                assert forall|a: int, b: int|
                                    0 <= a < datas.conses().len() && 0 <= b < datas.conses()[a].fields@.len() implies (
                                #[trigger] datas.conses()[a].fields@[b]).0 < types@.len() by {
                                    if a != c {
                                        assert(datas.conses()[a] == conses[a]);
                                        assert(conses[a].fields@[b].0 < mid.len());
                                    }
                                }
                                assert forall|x: int| 0 <= x < datas.conses().len() implies (
                                #[trigger] datas.conses()[x]).name == first.conses()[x].name
                                    && datas.conses()[x].span == first.conses()[x].span
                                    && datas.conses()[x].data == first.conses()[x].data by {
                                    assert(now.conses()[x].name == first.conses()[x].name);
                                    if x != c {
                                        assert(datas.conses()[x] == conses[x]);
                                    }
                                }
                                assert(filled_from(first, *datas));
                                assert forall|x: int, y: int|
                                    0 <= x < i && x < program.datas@.len() && 0 <= y < variants_seen(
                                        program,
                                        reg,
                                        x,
                                    ) implies (match #[trigger] reg.conses@[x]@[y] {
                                    Some(e) => datas.conses()[e as int].fields@
                                        == now.conses()[e as int].fields@,
                                    None => true,
                                }) by {
                                    match reg.conses@[x]@[y] {
                                        Some(e) => {
                                            assert(e != c);
                                            assert(datas.conses()[e as int] == now.conses()[e as int]);
                                        },
                                        None => {},
                                    }
                                }
                                lemma_data_reports_same(now, *datas, first, program, reg, i as nat);
                                assert forall|y: int|
                                    0 <= y < k && y < variants_seen(program, reg, i as int) implies (
                                match #[trigger] reg.conses@[i as int]@[y] {
                                    Some(e) => datas.conses()[e as int].fields@
                                        == now.conses()[e as int].fields@,
                                    None => true,
                                }) by {
                                    match reg.conses@[i as int]@[y] {
                                        Some(e) => {
                                            assert(e != c);
                                            assert(datas.conses()[e as int] == now.conses()[e as int]);
                                        },
                                        None => {},
                                    }
                                }
                                lemma_variant_reports_same(
                                    now,
                                    *datas,
                                    first,
                                    program,
                                    reg,
                                    i as int,
                                    k as nat,
                                );
                                assert(errors@ =~= told + data_reports(
                                    *datas,
                                    first,
                                    program,
                                    reg,
                                    i as nat,
                                ) + variant_reports(
                                    *datas,
                                    first,
                                    program,
                                    reg,
                                    i as int,
                                    (k + 1) as nat,
                                ));
                            }
                        },
                    }
                    proof {
                        assert forall|x: int, y: int|
                            0 <= x < program.datas@.len() && 0 <= y
                                < program.datas@[x].variants@.len() && y < reg.conses@[x]@.len()
                                && (x < i || (x == i && y < k + 1)) implies #[trigger] variant_filled(
                            *datas,
                            first,
                            types@,
                            program,
                            reg,
                            x,
                            y,
                        ) by {
                            if x < i || y < k {
                                assert(variant_filled(now, first, mid, program, reg, x, y));
                                match (reg.conses@[x]@[y], reg.conses@[i as int]@[k as int]) {
                                    (Some(c), Some(e)) => {
                                        assert(c != e);
                                        assert(datas.conses()[c as int] == now.conses()[c as int]);
                                    },
                                    _ => {},
                                }
                                lemma_variant_kept(
                                    now,
                                    *datas,
                                    first,
                                    mid,
                                    types@,
                                    program,
                                    reg,
                                    x,
                                    y,
                                );
                            }
                        }
                    }
                    k += 1;
                }
                assert(k == variants_seen(program, reg, i as int));
                assert(errors@ =~= told + data_reports(*datas, first, program, reg, (i + 1) as nat));
                assert forall|x: int, y: int|
                    0 <= x < program.datas@.len() && 0 <= y < program.datas@[x].variants@.len()
                        && y < reg.conses@[x]@.len() && x < i + 1 implies #[trigger] variant_filled(
                    *datas,
                    first,
                    types@,
                    program,
                    reg,
                    x,
                    y,
                ) by {}
            },
        }
        i += 1;
    }
    let ghost whole = program.datas@.len();
    let mut j: usize = 0;
    assert(errors@ =~= told + data_reports(*datas, first, program, reg, whole) + alias_reports(
        *datas,
        first,
        program,
        reg,
        0,
    ));
    while j < program.aliases.len()
        invariant
            j <= program.aliases.len(),
            whole == program.datas@.len(),
            told == old(errors)@,
            errors@ == told + data_reports(*datas, first, program, reg, whole) + alias_reports(
                *datas,
                first,
                program,
                reg,
                j as nat,
            ),
            types.wf(),
            datas.wf(),
            reg.wf(program, datas),
            extends(start, types@),
            fields_ok(datas, types@.len()),
            old(errors)@.len() <= errors@.len(),
            first == *old(datas),
            filled_from(first, *datas),
            conses_filled(*datas, first, types@, program, reg, program.datas@.len() as int, 0),
            aliases_filled(*datas, first, types@, program, reg, j as int),
        decreases program.aliases.len() - j,
    {
        let decl = &program.aliases[j];
        let ghost now = *datas;
        let ghost before = types@;
        match reg.aliases[j] {
            None => {},
            Some(a) => {
                let scope = datas.get_alias(a).gen_scope;
                let params = scope_params(datas, scope);
                let env = gen_env(types, &params, scope);
                let ghost mid = types@;
                let mut active: Vec<AliasId> = Vec::new();
                active.push(a);
                let ty = elaborate_or_report(
                    types,
                    datas,
                    &program.aliases,
                    &reg.sources,
                    &decl.ty,
                    &env,
                    &mut active,
                    errors,
                );
                proof {
                    lemma_extends_trans(before, mid, types@);
                    lemma_extends_trans(start, before, types@);
                    assert(active@ =~= seq![a]);
                    lemma_expand_same(
                        now,
                        first,
                        program.aliases@,
                        reg.sources@,
                        decl.ty,
                        scope_env(first, scope),
                        seq![a],
                    );
                }
                datas.define_alias(a, ty);
                proof {
                    assert(filled_from(first, *datas));
                    assert(alias_filled(*datas, first, types@, program, reg, j as int));
                }
            },
        }
        proof {
            lemma_data_reports_same(now, *datas, first, program, reg, whole);
            assert forall|x: int| 0 <= x < j && x < program.aliases@.len() implies (
            match #[trigger] reg.aliases@[x] {
                Some(p) => datas.aliases()[p.0 as int].ty == now.aliases()[p.0 as int].ty,
                None => true,
            }) by {
                match (reg.aliases@[x], reg.aliases@[j as int]) {
                    (Some(p), Some(q)) => {
                        assert(p != q);
                    },
                    _ => {},
                }
            }
            lemma_alias_reports_same(now, *datas, first, program, reg, j as nat);
            assert(errors@ =~= told + data_reports(*datas, first, program, reg, whole)
                + alias_reports(*datas, first, program, reg, (j + 1) as nat));
            assert forall|x: int, y: int|
                0 <= x < program.datas@.len() && 0 <= y < program.datas@[x].variants@.len() && y
                    < reg.conses@[x]@.len() implies #[trigger] variant_filled(
                *datas,
                first,
                types@,
                program,
                reg,
                x,
                y,
            ) by {
                assert(variant_filled(now, first, before, program, reg, x, y));
                lemma_variant_kept(now, *datas, first, before, types@, program, reg, x, y);
            }
            assert forall|x: int|
                0 <= x < j + 1 && x < program.aliases@.len() implies #[trigger] alias_filled(
                *datas,
                first,
                types@,
                program,
                reg,
                x,
            ) by {
                if x < j {
                    assert(alias_filled(now, first, before, program, reg, x));
                    match (reg.aliases@[x], reg.aliases@[j as int]) {
                        (Some(p), Some(q)) => {
                            assert(p != q);
                        },
                        _ => {},
                    }
                    lemma_alias_kept(now, *datas, first, before, types@, program, reg, x);
                }
            }
        }
        j += 1;
    }
}

/// Whether a definition before the position `i` of `decls` has the name of the
/// definition at `i`.
pub open spec fn named_before(decls: Seq<DefDecl>, i: int) -> bool {
    named_among(decls, i, decls[i].name)
}

/// Whether a definition before the position `i` of `decls` has the name `n`.
pub open spec fn named_among(decls: Seq<DefDecl>, i: int, n: Ident) -> bool {
    exists|j: int| 0 <= j < i && (#[trigger] decls[j]).name == n
}

/// Whether a definition of `defs` has the name `n`.
pub open spec fn has_name(defs: Seq<Def>, n: Ident) -> bool {
    exists|d: int| 0 <= d < defs.len() && (#[trigger] defs[d]).name == n
}

/// The names before a position and the name at it are the names before the next.
proof fn lemma_named_among_next(decls: Seq<DefDecl>, i: int, n: Ident)
    requires
        0 <= i < decls.len(),
    ensures
        named_among(decls, i + 1, n) == (named_among(decls, i, n) || decls[i].name == n),
{
    if named_among(decls, i, n) {
        let j = choose|j: int| 0 <= j < i && (#[trigger] decls[j]).name == n;
        assert(0 <= j < i + 1 && decls[j].name == n);
    }
    if decls[i].name == n {
        assert(0 <= i < i + 1 && decls[i].name == n);
    }
}

/// The names of a list of definitions with one more are its names and the name of
/// that one.
proof fn lemma_has_name_push(defs: Seq<Def>, x: Def, n: Ident)
    ensures
        has_name(defs.push(x), n) == (has_name(defs, n) || x.name == n),
{
    let more = defs.push(x);
    if has_name(defs, n) {
        let d = choose|d: int| 0 <= d < defs.len() && (#[trigger] defs[d]).name == n;
        assert(more[d].name == n);
    }
    if x.name == n {
        assert(more[defs.len() as int].name == n);
    }
    if has_name(more, n) {
        let d = choose|d: int| 0 <= d < more.len() && (#[trigger] more[d]).name == n;
        if d < defs.len() {
            assert(defs[d].name == n);
        }
    }
}

/// Whether the registry `now` is the registry `before` with more lists of generic
/// parameters.
pub open spec fn kept_but_scopes(before: Datas, now: Datas) -> bool {
    &&& now.types() == before.types()
    &&& now.datas() == before.datas()
    &&& now.aliases() == before.aliases()
    &&& now.conses() == before.conses()
    &&& before.scopes().len() <= now.scopes().len()
    &&& before.scopes() == now.scopes().take(before.scopes().len() as int)
}

/// Whether `id` is the error type of the store `tys`.
pub open spec fn is_hole(tys: Seq<TyView>, id: TyId) -> bool {
    id.0 < tys.len() && shape_of(tys, id.0 as nat) == Shape::Error
}

/// The error type of the store `tys`, if it holds one.
pub open spec fn hole_of(tys: Seq<TyView>) -> TyId {
    choose|id: TyId| is_hole(tys, id)
}

/// A store holds one error type at most.
pub proof fn lemma_hole(tys: Seq<TyView>, id: TyId)
    requires
        store_wf(tys),
        is_hole(tys, id),
    ensures
        hole_of(tys) == id,
{
    let h = hole_of(tys);
    assert(is_hole(tys, h));
    lemma_shape_injective(tys, h.0 as nat, id.0 as nat);
}

/// The error type of a store is the error type of a store that extends it.
pub proof fn lemma_hole_extends(a: Seq<TyView>, b: Seq<TyView>)
    requires
        store_wf(b),
        extends(a, b),
        is_hole(a, hole_of(a)),
    ensures
        hole_of(b) == hole_of(a),
        is_hole(b, hole_of(b)),
{
    let h = hole_of(a);
    lemma_shape_extends(a, b, h.0 as nat);
    lemma_hole(b, h);
}

/// The place of the first of the definitions before `i` that is named `n`.
pub open spec fn def_place(decls: Seq<DefDecl>, i: int, n: Ident) -> Option<Span>
    decreases i,
{
    if i <= 0 || i > decls.len() {
        None
    } else {
        match def_place(decls, i - 1, n) {
            Some(s) => Some(s),
            None => if decls[i - 1].name == n {
                Some(decls[i - 1].span)
            } else {
                None
            },
        }
    }
}

/// The generic parameters of the definition `d`, which is the definition `at` of a
/// program, each with its shape; `scopes` is the number of lists of generic
/// parameters that are declared before the definitions.
pub open spec fn def_env(scopes: nat, d: DefDecl, at: int) -> Seq<(Ident, Shape)> {
    gen_shapes(kept_params(d.gens@, d.gens@.len() as int), GenScopeId((scopes + at) as usize))
}

/// Why the type that the definition `j` of the program is said to have stands for no
/// type, if it is said to have one that stands for none.
pub open spec fn hint_error(
    datas: Datas,
    scopes: nat,
    program: &Program,
    sources: Seq<usize>,
    j: int,
) -> Option<ElabError> {
    match program.defs@[j].hint {
        Some(t) => match expand(
            datas,
            program.aliases@,
            sources,
            t,
            def_env(scopes, program.defs@[j], j),
            Seq::empty(),
        ) {
            Err(e) => Some(e),
            Ok(_) => None,
        },
        None => None,
    }
}

/// The diagnostics for the first `i` definitions of the program, in their order: for
/// each definition its generic parameters that are declared twice; then why the type
/// that it is said to have stands for none, if it does, with `hole` as the type that
/// stands in for it; then, if its name is taken, the name, the place of the first
/// definition of that name, and the place of this one.
pub open spec fn def_reports(
    datas: Datas,
    scopes: nat,
    program: &Program,
    sources: Seq<usize>,
    hole: TyId,
    i: nat,
) -> Seq<Error>
    decreases i,
{
    if i == 0 || i > program.defs@.len() {
        Seq::empty()
    } else {
        let d = program.defs@[i - 1];
        def_reports(datas, scopes, program, sources, hole, (i - 1) as nat) + gen_errors(
            dup_params(d.gens@, d.gens@.len() as int),
        ) + (match hint_error(datas, scopes, program, sources, i - 1) {
            Some(e) => seq![elab_error_of(e, hole)],
            None => Seq::empty(),
        }) + (match def_place(program.defs@, i - 1, d.name) {
            Some(s) => seq![Error::DuplicateDefName(d.name, s, d.span)],
            None => Seq::empty(),
        })
    }
}

/// Whether one of the first `i` definitions of the program is said to have what
/// stands for no type.
pub open spec fn holes_used(
    datas: Datas,
    scopes: nat,
    program: &Program,
    sources: Seq<usize>,
    i: int,
) -> bool {
    exists|j: int| 0 <= j < i && (#[trigger] hint_error(datas, scopes, program, sources, j)) is Some
}

/// The diagnostics for the definitions depend on the error type only where a
/// definition is said to have what stands for no type.
pub proof fn lemma_def_reports_hole(
    datas: Datas,
    scopes: nat,
    program: &Program,
    sources: Seq<usize>,
    a: TyId,
    b: TyId,
    i: nat,
)
    requires
        holes_used(datas, scopes, program, sources, i as int) ==> a == b,
    ensures
        def_reports(datas, scopes, program, sources, a, i) == def_reports(
            datas,
            scopes,
            program,
            sources,
            b,
            i,
        ),
    decreases i,
{
    if i > 0 && i <= program.defs@.len() {
        if holes_used(datas, scopes, program, sources, i - 1) {
            let j = choose|j: int|
                0 <= j < i - 1 && (#[trigger] hint_error(datas, scopes, program, sources, j)) is Some;
            assert(0 <= j < i && hint_error(datas, scopes, program, sources, j) is Some);
        }
        lemma_def_reports_hole(datas, scopes, program, sources, a, b, (i - 1) as nat);
        if hint_error(datas, scopes, program, sources, i - 1) is Some {
            assert(holes_used(datas, scopes, program, sources, i as int));
        }
    }
}

/// Registries with the same constructors, but for their fields, declare the
/// constructors at the same places.
pub proof fn lemma_cons_place_same(a: Datas, b: Datas, n: Ident)
    requires
        a.conses().len() == b.conses().len(),
        forall|c: int|
            0 <= c < a.conses().len() ==> (#[trigger] b.conses()[c]).name == a.conses()[c].name
                && b.conses()[c].span == a.conses()[c].span,
        a.wf(),
        b.wf(),
    ensures
        b.cons_place(n) == a.cons_place(n),
{
    lemma_places(a, n);
    lemma_places(b, n);
    lemma_cons_first_same(a.conses(), b.conses(), n, a.conses().len());
}

/// The lists of generic parameters of the first `count` definitions of the program,
/// without the parameters that are declared twice.
pub open spec fn def_scopes(program: &Program, count: nat) -> Seq<Seq<Named>> {
    Seq::new(
        count,
        |k: int| kept_params(program.defs@[k].gens@, program.defs@[k].gens@.len() as int),
    )
}

/// What the registry holds for the fields of a constructor and for an alias reads of
/// the registry the names and their generic parameters only.
pub proof fn lemma_filled_alike(
    now: Datas,
    a: Datas,
    b: Datas,
    tys: Seq<TyView>,
    program: &Program,
    reg: &Registered,
)
    requires
        a.wf(),
        same_params(a, b),
        same_envs(a, b, reg),
        reg.datas@.len() == program.datas@.len(),
        reg.aliases@.len() == program.aliases@.len(),
    ensures
        forall|x: int, y: int|
            0 <= x < program.datas@.len() && #[trigger] variant_filled(
                now,
                b,
                tys,
                program,
                reg,
                x,
                y,
            ) ==> variant_filled(now, a, tys, program, reg, x, y),
        forall|j: int|
            0 <= j < program.aliases@.len() && #[trigger] alias_filled(
                now,
                b,
                tys,
                program,
                reg,
                j,
            ) ==> alias_filled(now, a, tys, program, reg, j),
{
    assert forall|x: int, y: int|
        0 <= x < program.datas@.len() && #[trigger] variant_filled(
            now,
            b,
            tys,
            program,
            reg,
            x,
            y,
        ) implies variant_filled(now, a, tys, program, reg, x, y) by {
        match (reg.datas@[x], reg.conses@[x]@[y]) {
            (Some(d), Some(c)) => {
                let ts = program.datas@[x].variants@[y].fields@;
                let env = scope_env(a, a.datas()[d.0 as int].gen_scope);
                assert(env == scope_env(b, b.datas()[d.0 as int].gen_scope));
                let ids = now.conses()[c as int].fields@;
                assert forall|f: int| 0 <= f < ids.len() implies (#[trigger] ids[f]).0 < tys.len()
                    && shape_of(tys, ids[f].0 as nat) == shape_or_error(
                    expand(a, program.aliases@, reg.sources@, ts[f], env, Seq::empty()),
                ) by {
                    lemma_expand_alike(
                        a,
                        b,
                        program.aliases@,
                        reg.sources@,
                        ts[f],
                        env,
                        Seq::empty(),
                    );
                }
            },
            _ => {},
        }
    }
    assert forall|j: int|
        0 <= j < program.aliases@.len() && #[trigger] alias_filled(
            now,
            b,
            tys,
            program,
            reg,
            j,
        ) implies alias_filled(now, a, tys, program, reg, j) by {
        match reg.aliases@[j] {
            Some(x) => {
                let env = scope_env(a, a.aliases()[x.0 as int].gen_scope);
                assert(env == scope_env(b, b.aliases()[x.0 as int].gen_scope));
                lemma_expand_alike(
                    a,
                    b,
                    program.aliases@,
                    reg.sources@,
                    program.aliases@[j].ty,
                    env,
                    seq![x],
                );
            },
            None => {},
        }
    }
}

/// Whether the entry `e` of the registry of definitions is the one for the
/// definition `i` of the program: it has its name and place, the list of generic
/// parameters that was declared for it, and the type that it is said to have, if it
/// is said to have one; the error type stands in for what stands for no type.
pub open spec fn def_entry(
    tys: Seq<TyView>,
    datas: Datas,
    scopes: nat,
    program: &Program,
    sources: Seq<usize>,
    e: Def,
    i: int,
) -> bool {
    let decl = program.defs@[i];
    &&& e.name == decl.name
    &&& e.span == decl.span
    &&& e.gen_scope == GenScopeId((scopes + i) as usize)
    &&& match decl.hint {
        None => e.hint is None,
        Some(t) => e.hint is Some && e.hint.unwrap().0 < tys.len() && shape_of(
            tys,
            e.hint.unwrap().0 as nat,
        ) == shape_or_error(
            expand(datas, program.aliases@, sources, t, def_env(scopes, decl, i), Seq::empty()),
        ),
    }
}

/// Registers the definitions of `program`, each with the type that it is said to
/// have. A name that is taken is reported, and its declaration is left out: of the
/// definitions of one name the first is registered.
#[verifier::rlimit(80)]
pub fn register_defs(
    program: &Program,
    types: &mut Types,
    datas: &mut Datas,
    defs: &mut Defs,
    reg: &Registered,
    errors: &mut Vec<Error>,
) -> (ids: Vec<Option<DefId>>)
    requires
        old(types).wf(),
        old(datas).wf(),
        old(defs).wf(),
        old(defs)@.len() == 0,
        reg.wf(program, old(datas)),
        fields_ok(old(datas), old(types)@.len()),
    ensures
        sigs_ok(&*final(types), &*final(datas), &*final(defs)),
        extends(old(types)@, final(types)@),
        ids@.len() == program.defs@.len(),
        forall|i: int|
            0 <= i < ids@.len() ==> (match #[trigger] ids@[i] {
                Some(d) => d.0 < final(defs)@.len() && !named_before(program.defs@, i)
                    && final(defs)@[d.0 as int].name == program.defs@[i].name
                    && final(defs)@[d.0 as int].span == program.defs@[i].span,
                None => named_before(program.defs@, i),
            }),
        old(errors)@.len() <= final(errors)@.len(),
        final(errors)@.len() == old(errors)@.len() ==> forall|i: int|
            0 <= i < ids@.len() ==> (#[trigger] ids@[i]) is Some,
        final(errors)@ == old(errors)@ + def_reports(
            *old(datas),
            old(datas).scopes().len(),
            program,
            reg.sources@,
            hole_of(final(types)@),
            program.defs@.len(),
        ),
        kept_but_scopes(*old(datas), *final(datas)),
        final(datas).scopes().len() == old(datas).scopes().len() + program.defs@.len(),
        final(datas).scopes() == old(datas).scopes() + def_scopes(program, program.defs@.len()),
        holes_used(
            *old(datas),
            old(datas).scopes().len(),
            program,
            reg.sources@,
            program.defs@.len() as int,
        ) ==> is_hole(final(types)@, hole_of(final(types)@)),
        final(defs)@.len() == firsts(program.defs@, program.defs@.len()).len(),
        forall|i: int|
            0 <= i < ids@.len() ==> (match #[trigger] ids@[i] {
                Some(d) => d.0 == firsts(program.defs@, i as nat).len(),
                None => true,
            }),
        forall|d: int|
            0 <= d < final(defs)@.len() ==> (#[trigger] final(defs)@[d]).ty == final(defs)@[d].hint,
        forall|i: int|
            0 <= i < ids@.len() ==> (match #[trigger] ids@[i] {
                Some(d) => def_entry(
                    final(types)@,
                    *old(datas),
                    old(datas).scopes().len(),
                    program,
                    reg.sources@,
                    final(defs)@[d.0 as int],
                    i,
                ),
                None => true,
            }),
{
    let ghost start = types@;
    let ghost first = *datas;
    let ghost base = datas.scopes().len();
    let ghost told = errors@;
    let ghost srcs = reg.sources@;
    let mut ids: Vec<Option<DefId>> = Vec::new();
    let mut i: usize = 0;
    assert(errors@ =~= told + def_reports(first, base, program, srcs, hole_of(types@), 0));
    assert(first.scopes() =~= datas.scopes().take(base as int));
    assert(datas.scopes() =~= first.scopes() + def_scopes(program, 0));
    while i < program.defs.len()
        invariant
            i <= program.defs.len(),
            types.wf(),
            datas.wf(),
            defs.wf(),
            reg.wf(program, datas),
            extends(start, types@),
            fields_ok(datas, types@.len()),
            defs_ok(defs, types@.len(), datas.scopes().len()),
            ids@.len() == i,
            forall|j: int|
                0 <= j < i ==> (match #[trigger] ids@[j] {
                    Some(d) => d.0 < defs@.len() && !named_before(program.defs@, j)
                        && defs@[d.0 as int].name == program.defs@[j].name
                        && defs@[d.0 as int].span == program.defs@[j].span,
                    None => named_before(program.defs@, j),
                }),
            forall|n: Ident| #[trigger]
                has_name(defs@, n) == named_among(program.defs@, i as int, n),
            old(errors)@.len() <= errors@.len(),
            first == *old(datas),
            first.wf(),
            base == first.scopes().len(),
            told == old(errors)@,
            srcs == reg.sources@,
            kept_but_scopes(first, *datas),
            datas.scopes().len() == base + i,
            datas.scopes() == first.scopes() + def_scopes(program, i as nat),
            forall|n: Ident| #[trigger]
                def_first(defs@, n, defs@.len()) == def_place(program.defs@, i as int, n),
            defs@.len() == firsts(program.defs@, i as nat).len(),
            forall|j: int|
                0 <= j < i ==> (match #[trigger] ids@[j] {
                    Some(d) => d.0 == firsts(program.defs@, j as nat).len(),
                    None => true,
                }),
            forall|d: int| 0 <= d < defs@.len() ==> (#[trigger] defs@[d]).ty == defs@[d].hint,
            forall|j: int|
                0 <= j < i ==> (match #[trigger] ids@[j] {
                    Some(d) => def_entry(types@, first, base, program, srcs, defs@[d.0 as int], j),
                    None => true,
                }),
            errors@ == told + def_reports(first, base, program, srcs, hole_of(types@), i as nat),
            holes_used(first, base, program, srcs, i as int) ==> is_hole(types@, hole_of(types@)),
            errors@.len() == old(errors)@.len() ==> forall|j: int|
                0 <= j < i ==> (#[trigger] ids@[j]) is Some,
        decreases program.defs.len() - i,
    {
        let decl = &program.defs[i];
        let ghost heard = errors@;
        let ghost entered = *datas;
        let (scope, dups) = datas.declare_scope(&decl.gens);
        report_gens(&dups, errors);
        let params = scope_params(datas, scope);
        let ghost before = types@;
        let env = gen_env(types, &params, scope);
        let ghost mid = types@;
        let ghost now = *datas;
        let ghost gens = gen_errors(dups@);
        proof {
            assert(datas.scopes() =~= first.scopes() + def_scopes(program, (i + 1) as nat));
            assert(first.scopes() =~= datas.scopes().take(base as int)) by {
                assert(first.scopes() == entered.scopes().take(base as int));
            }
            assert(same_params(now, first)) by {
                assert forall|k: int| 0 <= k < now.types().len() implies params_of(
                    now,
                    (#[trigger] now.types()[k]).target,
                ) == params_of(first, now.types()[k].target) by {
                    assert(first.types()[k] == now.types()[k]);
                    match first.types()[k].target {
                        TypeRef::Data(d) => {
                            assert(d.0 < first.datas().len());
                            let g = first.datas()[d.0 as int].gen_scope.0 as int;
                            assert(g < base);
                            assert(first.scopes()[g] == now.scopes().take(base as int)[g]);
                        },
                        TypeRef::Alias(x) => {
                            assert(x.0 < first.aliases().len());
                            let g = first.aliases()[x.0 as int].gen_scope.0 as int;
                            assert(g < base);
                            assert(first.scopes()[g] == now.scopes().take(base as int)[g]);
                        },
                    }
                }
            }
            assert(env_shapes(mid, env@) == def_env(base, *decl, i as int));
            if decl.hint is Some {
                lemma_expand_alike(
                    now,
                    first,
                    program.aliases@,
                    srcs,
                    decl.hint->0,
                    def_env(base, *decl, i as int),
                    Seq::empty(),
                );
            }
        }
        let hint = match &decl.hint {
            None => None,
            Some(texpr) => {
                let mut active: Vec<AliasId> = Vec::new();
                Some(
                    elaborate_or_report(
                        types,
                        datas,
                        &program.aliases,
                        &reg.sources,
                        texpr,
                        &env,
                        &mut active,
                        errors,
                    ),
                )
            },
        };
        proof {
            lemma_extends_trans(before, mid, types@);
            lemma_extends_trans(start, before, types@);
        }
        let ghost known = defs@;
        let id = match defs.declare(decl.name, decl.span, scope, hint) {
            Err(d) => {
                errors.push(Error::DuplicateDefName(d.name, d.old, d.new));
                None
            },
            Ok(id) => Some(id),
        };
        proof {
            let at = i as int;
            let h0 = hole_of(before);
            let h2 = hole_of(types@);
            assert(def_first(known, decl.name, known.len()) == def_place(
                program.defs@,
                at,
                decl.name,
            ));
            assert forall|n: Ident| #[trigger]
                def_first(defs@, n, defs@.len()) == def_place(program.defs@, at + 1, n) by {
                assert(def_first(known, n, known.len()) == def_place(program.defs@, at, n));
                lemma_def_first_same(known, defs@, n, known.len());
            }
            if holes_used(first, base, program, srcs, at) {
                lemma_hole_extends(before, types@);
            }
            lemma_def_reports_hole(first, base, program, srcs, h0, h2, at as nat);
            if hint_error(first, base, program, srcs, at) is Some {
                assert(is_hole(types@, hint->0));
                lemma_hole(types@, hint->0);
            }
            assert(errors@ =~= told + def_reports(first, base, program, srcs, h2, (at + 1) as nat));
            if holes_used(first, base, program, srcs, at + 1) {
                let j = choose|j: int|
                    0 <= j < at + 1 && (#[trigger] hint_error(first, base, program, srcs, j)) is Some;
                if j < at {
                    assert(holes_used(first, base, program, srcs, at));
                }
            }
        }
        proof {
            assert forall|d: int| 0 <= d < defs@.len() implies (#[trigger] defs@[d]).gen_scope.0
                < datas.scopes().len() && (match defs@[d].ty {
                Some(t) => t.0 < types@.len(),
                None => true,
            }) by {
                if d < known.len() {
                    assert(defs@[d] == known[d]);
                }
            }
            let decls = program.defs@;
            let at = i as int;
            assert(has_name(known, decl.name) == named_among(decls, at, decl.name));
            if id is Some {
                assert(defs@ == known.push(defs@[known.len() as int]));
                if has_name(known, decl.name) {
                    let d = choose|d: int|
                        0 <= d < known.len() && (#[trigger] known[d]).name == decl.name;
                    assert(false);
                }
            } else {
                assert(defs@ == known);
                let d = choose|d: int| 0 <= d < known.len() && known[d].name == decl.name;
                assert(known[d].name == decl.name);
                assert(has_name(known, decl.name));
            }
            assert forall|n: Ident| #[trigger]
                has_name(defs@, n) == named_among(decls, at + 1, n) by {
                assert(has_name(known, n) == named_among(decls, at, n));
                lemma_named_among_next(decls, at, n);
                if id is Some {
                    lemma_has_name_push(known, defs@[known.len() as int], n);
                }
            }
        }
        let ghost prev = ids@;
        ids.push(id);
        proof {
            let decls = program.defs@;
            assert forall|d: int| 0 <= d < defs@.len() implies (#[trigger] defs@[d]).ty
                == defs@[d].hint by {
                if d < known.len() {
                    assert(defs@[d] == known[d]);
                }
            }
            assert forall|j: int| 0 <= j <= i implies (match #[trigger] ids@[j] {
                Some(d) => d.0 == firsts(decls, j as nat).len(),
                None => true,
            }) by {
                if j < i {
                    assert(ids@[j] == prev[j]);
                } else {
                    assert(ids@[j] == id);
                }
            }
            assert forall|j: int| 0 <= j <= i implies (match #[trigger] ids@[j] {
                Some(d) => def_entry(types@, first, base, program, srcs, defs@[d.0 as int], j),
                None => true,
            }) by {
                if j < i {
                    assert(ids@[j] == prev[j]);
                    match prev[j] {
                        Some(d) => {
                            assert(d.0 < known.len());
                            assert(defs@[d.0 as int] == known[d.0 as int]);
                            assert(def_entry(before, first, base, program, srcs, known[d.0 as int], j));
                            if known[d.0 as int].hint is Some {
                                lemma_shape_extends(
                                    before,
                                    types@,
                                    known[d.0 as int].hint.unwrap().0 as nat,
                                );
                            }
                        },
                        None => {},
                    }
                } else {
                    assert(ids@[j] == id);
                }
            }
            assert forall|j: int| 0 <= j <= i implies (match #[trigger] ids@[j] {
                Some(d) => d.0 < defs@.len() && !named_before(decls, j) && defs@[d.0 as int].name
                    == decls[j].name && defs@[d.0 as int].span == decls[j].span,
                None => named_before(decls, j),
            }) by {
                if j < i {
                    assert(ids@[j] == prev[j]);
                    match prev[j] {
                        Some(d) => {
                            assert(d.0 < known.len());
                            assert(defs@[d.0 as int] == known[d.0 as int]);
                            assert(!named_before(decls, j));
                        },
                        None => {
                            assert(named_before(decls, j));
                        },
                    }
                } else {
                    assert(ids@[j] == id);
                    assert(decls[j] == *decl);
                    match id {
                        Some(d) => {
                            assert(d.0 == known.len());
                            assert(defs@[d.0 as int].name == decl.name);
                            assert(defs@[d.0 as int].span == decl.span);
                            assert(!has_name(known, decl.name));
                            assert(!named_among(decls, j, decl.name));
                            assert(!named_before(decls, j));
                        },
                        None => {
                            assert(has_name(known, decl.name));
                            assert(named_before(decls, j));
                        },
                    }
                }
            }
            assert(defs@.len() == firsts(decls, (i + 1) as nat).len());
        }
        i += 1;
    }
    ids
}

/// The positions of the first `n` definitions of `decls` that are registered: those
/// whose name no earlier definition has.
pub open spec fn firsts(decls: Seq<DefDecl>, n: nat) -> Seq<int>
    decreases n,
{
    if n == 0 || n > decls.len() {
        Seq::empty()
    } else if named_before(decls, n - 1) {
        firsts(decls, (n - 1) as nat)
    } else {
        firsts(decls, (n - 1) as nat).push(n - 1)
    }
}

/// Whether the typed definition `t` was made from the definition `decl`: it has its
/// name and place, its type is a type of the store `tys` and is the type of its
/// body, and its body is the body of `decl` with a type of the store for each node.
pub open spec fn typed_as(t: TypedDef, decl: DefDecl, tys: Seq<TyView>) -> bool {
    &&& t.name == decl.name
    &&& t.span == decl.span
    &&& t.ty.0 < tys.len()
    &&& t.body.ty == TySlot::Known(t.ty)
    &&& expr_typed(t.body, decl.body, known_slot(tys.len()))
}

/// The diagnostics of the registration of a program, in their order: the names that
/// are declared twice among the data types, their variants and the aliases; then
/// the fields of constructors and the aliases that are written as what stands for no
/// type; then, for the definitions, the names declared twice and the types that
/// they are said to have and that stand for none. `reg` is what was registered,
/// `datas` the registry and `tys` the store that the analysis gives.
pub open spec fn setup_reports(
    program: &Program,
    reg: &Registered,
    datas: Datas,
    tys: Seq<TyView>,
) -> Seq<Error> {
    data_dups(Seq::empty(), Seq::empty(), program.datas@, program.datas@.len()) + alias_dups(
        Seq::empty(),
        program,
        program.aliases@.len(),
    ) + data_reports(datas, datas, program, reg, program.datas@.len()) + alias_reports(
        datas,
        datas,
        program,
        reg,
        program.aliases@.len(),
    ) + def_reports(
        datas,
        (datas.scopes().len() - program.defs@.len()) as nat,
        program,
        reg.sources@,
        hole_of(tys),
        program.defs@.len(),
    )
}

/// A registry with more lists of generic parameters declares the same names with
/// the same generic parameters.
pub proof fn lemma_kept_params(before: Datas, now: Datas)
    requires
        before.wf(),
        kept_but_scopes(before, now),
    ensures
        same_params(now, before),
        forall|g: GenScopeId|
            g.0 < before.scopes().len() ==> #[trigger] scope_env(now, g) == scope_env(before, g),
{
    let base = before.scopes().len() as int;
    assert forall|k: int| 0 <= k < now.types().len() implies params_of(
        now,
        (#[trigger] now.types()[k]).target,
    ) == params_of(before, now.types()[k].target) by {
        assert(before.types()[k] == now.types()[k]);
        match before.types()[k].target {
            TypeRef::Data(d) => {
                assert(d.0 < before.datas().len());
                let g = before.datas()[d.0 as int].gen_scope.0 as int;
                assert(g < base);
                assert(before.scopes()[g] == now.scopes().take(base)[g]);
            },
            TypeRef::Alias(x) => {
                assert(x.0 < before.aliases().len());
                let g = before.aliases()[x.0 as int].gen_scope.0 as int;
                assert(g < base);
                assert(before.scopes()[g] == now.scopes().take(base)[g]);
            },
        }
    }
    assert forall|g: GenScopeId| g.0 < before.scopes().len() implies #[trigger] scope_env(now, g)
        == scope_env(before, g) by {
        assert(before.scopes()[g.0 as int] == now.scopes().take(base)[g.0 as int]);
    }
}

/// The diagnostics for written types are the same in registries that declare the same
/// names with the same generic parameters.
pub proof fn lemma_reports_of_alike(
    a: Datas,
    b: Datas,
    decls: Seq<AliasDecl>,
    index: Seq<usize>,
    ts: Seq<TypeExpr>,
    env: Seq<(Ident, Shape)>,
    ids: Seq<TyId>,
    n: nat,
)
    requires
        a.wf(),
        same_params(a, b),
    ensures
        reports_of(a, decls, index, ts, env, ids, n) == reports_of(b, decls, index, ts, env, ids, n),
    decreases n,
{
    if n > 0 && n <= ts.len() {
        lemma_reports_of_alike(a, b, decls, index, ts, env, ids, (n - 1) as nat);
        lemma_expand_alike(a, b, decls, index, ts[n - 1], env, Seq::empty());
    }
}

/// Whether two registries give the registered data types and aliases of `reg` the
/// same generic parameters.
pub open spec fn same_envs(a: Datas, b: Datas, reg: &Registered) -> bool {
    &&& forall|x: int|
        0 <= x < reg.datas@.len() ==> (match #[trigger] reg.datas@[x] {
            Some(d) => scope_env(a, a.datas()[d.0 as int].gen_scope) == scope_env(
                b,
                b.datas()[d.0 as int].gen_scope,
            ),
            None => true,
        })
    &&& forall|x: int|
        0 <= x < reg.aliases@.len() ==> (match #[trigger] reg.aliases@[x] {
            Some(i) => scope_env(a, a.aliases()[i.0 as int].gen_scope) == scope_env(
                b,
                b.aliases()[i.0 as int].gen_scope,
            ),
            None => true,
        })
}

/// The diagnostics for the variants of a data type read of the registry the names
/// and their generic parameters only.
pub proof fn lemma_variant_reports_alike(
    now: Datas,
    a: Datas,
    b: Datas,
    program: &Program,
    reg: &Registered,
    x: int,
    k: nat,
)
    requires
        a.wf(),
        same_params(a, b),
        same_envs(a, b, reg),
        0 <= x < reg.datas@.len(),
    ensures
        variant_reports(now, a, program, reg, x, k) == variant_reports(now, b, program, reg, x, k),
    decreases k,
{
    if k > 0 && k <= variants_seen(program, reg, x) {
        lemma_variant_reports_alike(now, a, b, program, reg, x, (k - 1) as nat);
        match (reg.datas@[x], reg.conses@[x]@[k - 1]) {
            (Some(d), Some(c)) => {
                lemma_reports_of_alike(
                    a,
                    b,
                    program.aliases@,
                    reg.sources@,
                    program.datas@[x].variants@[k - 1].fields@,
                    scope_env(a, a.datas()[d.0 as int].gen_scope),
                    now.conses()[c as int].fields@,
                    program.datas@[x].variants@[k - 1].fields@.len(),
                );
            },
            _ => {},
        }
    }
}

/// The diagnostics for the data types read of the registry the names and their
/// generic parameters only.
pub proof fn lemma_data_reports_alike(
    now: Datas,
    a: Datas,
    b: Datas,
    program: &Program,
    reg: &Registered,
    i: nat,
)
    requires
        a.wf(),
        same_params(a, b),
        same_envs(a, b, reg),
        reg.datas@.len() == program.datas@.len(),
    ensures
        data_reports(now, a, program, reg, i) == data_reports(now, b, program, reg, i),
    decreases i,
{
    if i > 0 && i <= program.datas@.len() {
        lemma_data_reports_alike(now, a, b, program, reg, (i - 1) as nat);
        lemma_variant_reports_alike(
            now,
            a,
            b,
            program,
            reg,
            i - 1,
            variants_seen(program, reg, i - 1),
        );
    }
}

/// The diagnostics for the aliases read of the registry the names and their generic
/// parameters only.
pub proof fn lemma_alias_reports_alike(
    now: Datas,
    a: Datas,
    b: Datas,
    program: &Program,
    reg: &Registered,
    n: nat,
)
    requires
        a.wf(),
        same_params(a, b),
        same_envs(a, b, reg),
        reg.aliases@.len() == program.aliases@.len(),
    ensures
        alias_reports(now, a, program, reg, n) == alias_reports(now, b, program, reg, n),
    decreases n,
{
    if n > 0 && n <= program.aliases@.len() {
        lemma_alias_reports_alike(now, a, b, program, reg, (n - 1) as nat);
        match reg.aliases@[n - 1] {
            Some(x) => {
                lemma_expand_alike(
                    a,
                    b,
                    program.aliases@,
                    reg.sources@,
                    program.aliases@[n - 1].ty,
                    scope_env(a, a.aliases()[x.0 as int].gen_scope),
                    seq![x],
                );
            },
            None => {},
        }
    }
}

/// The diagnostics for the definitions read of the registry the names and their
/// generic parameters only.
pub proof fn lemma_def_reports_alike(
    a: Datas,
    b: Datas,
    scopes: nat,
    program: &Program,
    sources: Seq<usize>,
    hole: TyId,
    i: nat,
)
    requires
        a.wf(),
        same_params(a, b),
        i <= program.defs@.len(),
    ensures
        def_reports(a, scopes, program, sources, hole, i) == def_reports(
            b,
            scopes,
            program,
            sources,
            hole,
            i,
        ),
        holes_used(a, scopes, program, sources, i as int) == holes_used(
            b,
            scopes,
            program,
            sources,
            i as int,
        ),
    decreases i,
{
    assert forall|j: int| 0 <= j < program.defs@.len() implies #[trigger] hint_error(
        a,
        scopes,
        program,
        sources,
        j,
    ) == hint_error(b, scopes, program, sources, j) by {
        if program.defs@[j].hint is Some {
            lemma_expand_alike(
                a,
                b,
                program.aliases@,
                sources,
                program.defs@[j].hint->0,
                def_env(scopes, program.defs@[j], j),
                Seq::empty(),
            );
        }
    }
    if i > 0 && i <= program.defs@.len() {
        lemma_def_reports_alike(a, b, scopes, program, sources, hole, (i - 1) as nat);
    }
    if holes_used(a, scopes, program, sources, i as int) && i <= program.defs@.len() {
        let j = choose|j: int|
            0 <= j < i && (#[trigger] hint_error(a, scopes, program, sources, j)) is Some;
        assert(hint_error(b, scopes, program, sources, j) is Some);
    }
    if holes_used(b, scopes, program, sources, i as int) && i <= program.defs@.len() {
        let j = choose|j: int|
            0 <= j < i && (#[trigger] hint_error(b, scopes, program, sources, j)) is Some;
        assert(hint_error(a, scopes, program, sources, j) is Some);
    }
}

/// The registry of definitions as it is when the definition `k` is checked: the
/// definitions before it are as they are in `defs`, and the type of each of the
/// others is the type that it is said to have.
pub open spec fn defs_before(defs: Seq<Def>, k: nat) -> Seq<Def> {
    Seq::new(
        defs.len(),
        |d: int|
            if d < k {
                defs[d]
            } else {
                Def { ty: defs[d].hint, ..defs[d] }
            },
    )
}

/// What the checking of the definitions of a program has given: the declarations
/// `decls`, the positions `order` of those that are registered, the registries, the
/// store, the typed definitions, and the diagnostics, of which the first `base` are
/// those of the registration.
pub struct Seen {
    pub decls: Seq<DefDecl>,
    pub order: Seq<int>,
    pub datas: Datas,
    pub defs: Seq<Def>,
    pub tys: Seq<TyView>,
    pub typed: Seq<TypedDef>,
    pub errors: Seq<Error>,
    pub base: nat,
}

/// The declaration of the registered definition `k`.
pub open spec fn decl_of(c: Seen, k: int) -> DefDecl {
    c.decls[c.order[k]]
}

/// The inference of the registered definition `k`.
pub open spec fn def_model(c: Seen, k: int) -> (Infer, TyVar, Seq<TyVar>) {
    def_m(c.tys, c.datas, defs_before(c.defs, k as nat), decl_of(c, k), DefId(k as usize))
}

/// The number of the diagnostics of the registered definition `k`.
pub open spec fn def_len(c: Seen, k: int) -> nat {
    let m = def_model(c, k);
    told_len(
        m.0,
        decl_of(c, k),
        c.defs[k].hint is Some,
        m.1,
        m.2,
        reports(c.datas, c.typed[k].body).len(),
    )
}

/// The number of the diagnostics before those of the registered definition `k`.
pub open spec fn told_upto(c: Seen, k: nat) -> nat
    decreases k,
{
    if k == 0 {
        c.base
    } else {
        told_upto(c, (k - 1) as nat) + def_len(c, k - 1)
    }
}

/// Whether the registered definition `k` is checked: its diagnostics are those of
/// its inference and of its matches, at their place among the diagnostics; its type
/// is the type that the variable of its body stands for; and the registry holds, as
/// the type of a reference to it, the type that it is said to have, or else its
/// type if nothing was reported of it, or else none.
pub open spec fn def_checked(c: Seen, k: int) -> bool {
    let m = def_model(c, k);
    &&& def_told(
        c.errors.take(told_upto(c, k as nat) as int),
        c.errors.take(told_upto(c, (k + 1) as nat) as int),
        m.0,
        decl_of(c, k),
        c.defs[k].hint is Some,
        m.1,
        m.2,
        c.tys,
        reports(c.datas, c.typed[k].body),
    )
    &&& stands_for(c.tys, c.typed[k].ty, m.0.graph, m.1)
    &&& c.defs[k].ty == (if c.defs[k].hint is Some {
        c.defs[k].hint
    } else if def_len(c, k) == 0 {
        Some(c.typed[k].ty)
    } else {
        None
    })
}

/// Whether `next` is what was seen as `c`, after more definitions were checked: the
/// first `n` definitions are as they were, the store extends the store, and the
/// diagnostics of `c` are the first diagnostics of `next`.
pub open spec fn seen_kept(c: Seen, next: Seen, n: nat) -> bool {
    &&& next.decls == c.decls
    &&& next.datas == c.datas
    &&& next.base == c.base
    &&& extends(c.tys, next.tys)
    &&& n <= c.typed.len() <= next.typed.len()
    &&& n <= c.order.len() <= next.order.len()
    &&& forall|j: int| 0 <= j < n ==> #[trigger] next.typed[j] == c.typed[j]
    &&& forall|j: int| 0 <= j < n ==> #[trigger] next.order[j] == c.order[j]
    &&& next.defs.len() == c.defs.len()
    &&& forall|d: int| 0 <= d < n && d < c.defs.len() ==> #[trigger] next.defs[d] == c.defs[d]
    &&& forall|d: int|
        0 <= d < c.defs.len() ==> (Def { ty: None, ..#[trigger] next.defs[d] }) == (Def {
            ty: None,
            ..c.defs[d]
        })
    &&& c.errors.len() <= next.errors.len()
    &&& next.errors.take(c.errors.len() as int) == c.errors
}

/// What was seen of one definition stays what it is when more definitions are
/// checked.
#[verifier::rlimit(50)]
pub proof fn lemma_seen_one(c: Seen, next: Seen, k: int)
    requires
        0 <= k,
        seen_kept(c, next, (k + 1) as nat),
        c.datas.wf(),
        fields_known(c.datas, c.tys.len()),
        defs_known(c.defs, c.tys.len()),
        k < c.defs.len(),
        told_upto(next, k as nat) == told_upto(c, k as nat),
        told_upto(c, (k + 1) as nat) <= c.errors.len(),
        def_checked(c, k),
    ensures
        def_len(next, k) == def_len(c, k),
        def_checked(next, k),
{
    let n = (k + 1) as nat;
    assert(told_upto(c, n) == told_upto(c, k as nat) + def_len(c, k));
    assert(told_upto(next, n) == told_upto(next, k as nat) + def_len(next, k));
    assert(defs_before(next.defs, k as nat) =~= defs_before(c.defs, k as nat)) by {
        assert forall|d: int| 0 <= d < c.defs.len() implies #[trigger] defs_before(
            next.defs,
            k as nat,
        )[d] == defs_before(c.defs, k as nat)[d] by {
            assert((Def { ty: None, ..next.defs[d] }) == (Def { ty: None, ..c.defs[d] }));
            if d < k {
                assert(next.defs[d] == c.defs[d]);
            }
        }
    }
    let before = defs_before(c.defs, k as nat);
    assert(defs_known(before, c.tys.len())) by {
        assert forall|d: int| 0 <= d < before.len() implies (match (#[trigger] before[d]).ty {
            Some(t) => t.0 < c.tys.len(),
            None => true,
        }) && (match before[d].hint {
            Some(t) => t.0 < c.tys.len(),
            None => true,
        }) by {
            assert(c.defs[d].hint == before[d].hint);
        }
    }
    assert(next.typed[k] == c.typed[k]);
    assert(next.order[k] == c.order[k]);
    assert(next.defs[k] == c.defs[k]);
    lemma_def_same(c.tys, next.tys, c.datas, before, decl_of(c, k), DefId(k as usize));
    assert(def_model(next, k) == def_model(c, k));
    assert(def_len(next, k) == def_len(c, k));
    let m = def_model(c, k);
    let from = told_upto(c, k as nat) as int;
    let to = told_upto(c, n) as int;
    assert(next.errors.take(from) =~= c.errors.take(from)) by {
        assert forall|i: int| 0 <= i < from implies next.errors[i] == c.errors[i] by {
            assert(next.errors.take(c.errors.len() as int)[i] == c.errors[i]);
        }
    }
    assert(next.errors.take(to) =~= c.errors.take(to)) by {
        assert forall|i: int| 0 <= i < to implies next.errors[i] == c.errors[i] by {
            assert(next.errors.take(c.errors.len() as int)[i] == c.errors[i]);
        }
    }
    lemma_def_told_extends(
        c.errors.take(from),
        c.errors.take(to),
        m.0,
        decl_of(c, k),
        c.defs[k].hint is Some,
        m.1,
        m.2,
        c.tys,
        next.tys,
        reports(c.datas, c.typed[k].body),
    );
    lemma_stands_extends(c.tys, next.tys, c.typed[k].ty, m.0.graph, m.1);
}

/// What was seen of the first definitions stays what it is when more definitions
/// are checked.
#[verifier::rlimit(80)]
pub proof fn lemma_seen_kept(c: Seen, next: Seen, n: nat)
    requires
        seen_kept(c, next, n),
        c.datas.wf(),
        fields_known(c.datas, c.tys.len()),
        defs_known(c.defs, c.tys.len()),
        n <= c.defs.len(),
        told_upto(c, n) <= c.errors.len(),
        forall|j: int| 0 <= j < n ==> #[trigger] def_checked(c, j),
    ensures
        forall|j: int| 0 <= j <= n ==> #[trigger] told_upto(next, j as nat) == told_upto(c, j as nat),
        forall|j: int| 0 <= j < n ==> #[trigger] def_checked(next, j),
    decreases n,
{
    if n > 0 {
        let k = (n - 1) as int;
        assert(told_upto(c, n) == told_upto(c, k as nat) + def_len(c, k));
        assert(told_upto(next, n) == told_upto(next, k as nat) + def_len(next, k));
        lemma_seen_kept(c, next, k as nat);
        assert(told_upto(next, k as nat) == told_upto(c, k as nat));
        assert(def_checked(c, k));
        lemma_seen_one(c, next, k);
        assert(told_upto(next, n) == told_upto(c, n));
        assert forall|j: int| 0 <= j <= n implies #[trigger] told_upto(next, j as nat)
            == told_upto(c, j as nat) by {
            if j < n {
                assert(told_upto(next, j as nat) == told_upto(c, j as nat));
            }
        }
        assert forall|j: int| 0 <= j < n implies #[trigger] def_checked(next, j) by {
            if j < k {
                assert(def_checked(next, j));
            }
        }
    }
}

/// What is seen of the checking of the definitions when the first `i` declarations
/// were looked at.
pub open spec fn now(
    decls: Seq<DefDecl>,
    i: nat,
    datas: Datas,
    defs: Seq<Def>,
    tys: Seq<TyView>,
    typed: Seq<TypedDef>,
    errors: Seq<Error>,
    base: nat,
) -> Seen {
    Seen { decls, order: firsts(decls, i), datas, defs, tys, typed, errors, base }
}

/// What is seen of the checking of the definitions in the analysis `r` of the
/// program.
pub open spec fn seen(program: &Program, r: Analysis) -> Seen {
    now(
        program.defs@,
        program.defs@.len(),
        r.datas,
        r.defs@,
        r.tys@,
        r.typed@,
        r.errors@,
        setup_reports(program, &r.registered, r.datas, r.tys@).len(),
    )
}

/// Analyses the program `program`: registers its names, fills in what they stand
/// for, and checks each definition that was registered. The definitions come back in
/// the order of their declaration, each the first definition of its name, with a
/// type for every node of its body. A definition that is not said to have a type
/// gets the type of its body, if checking it reported nothing.
///
/// The registry holds what the declarations declare, and holds it for the first
/// declaration of each name. The diagnostics are those of the registration, and
/// then those of each definition in turn: what its inference records, with a type for
/// each variable, what stays unknown of the types of its nodes, and the matches that
/// leave a case out. Where nothing at all is reported, every body is well typed and
/// no match in it leaves a case out.
#[verifier::rlimit(80)]
pub fn analyze(program: &Program) -> (r: Analysis)
    ensures
        sigs_ok(&r.tys, &r.datas, &r.defs),
        r.registered.wf(program, &r.datas),
        forall|j: int|
            0 <= j < program.datas@.len() ==> #[trigger] data_registered(
                Seq::empty(),
                Seq::empty(),
                program.datas@,
                r.registered.datas@,
                r.registered.conses@,
                j,
            ),
        forall|j: int|
            0 <= j < program.aliases@.len() ==> ((#[trigger] r.registered.aliases@[j]) is Some) == (
            alias_place(Seq::empty(), program, j, program.aliases@[j].name) is None),
        r.typed@.len() == firsts(program.defs@, program.defs@.len()).len(),
        forall|k: int|
            0 <= k < r.typed@.len() ==> typed_as(
                #[trigger] r.typed@[k],
                program.defs@[firsts(program.defs@, program.defs@.len())[k]],
                r.tys@,
            ),
        setup_reports(program, &r.registered, r.datas, r.tys@).len() <= r.errors@.len(),
        r.errors@.take(setup_reports(program, &r.registered, r.datas, r.tys@).len() as int)
            == setup_reports(program, &r.registered, r.datas, r.tys@),
        r.datas.scopes() == decl_scopes(
            program,
            (program.datas@.len() + program.aliases@.len() + program.defs@.len()) as nat,
        ),
        forall|j: int|
            0 <= j < program.datas@.len() ==> #[trigger] data_entry(
                &r.datas,
                0,
                program.datas@,
                r.registered.datas@,
                r.registered.conses@,
                j,
            ),
        forall|j: int|
            0 <= j < program.datas@.len() ==> (match #[trigger] r.registered.datas@[j] {
                Some(d) => data_is(&r.datas, d, program.datas@[j]),
                None => true,
            }),
        forall|x: int|
            0 <= x < program.aliases@.len() ==> #[trigger] alias_entry(
                &r.datas,
                program.datas@.len(),
                program,
                r.registered.aliases@,
                x,
            ),
        forall|n: Ident| #[trigger]
            r.datas.type_place(n) == alias_place(
                Seq::empty(),
                program,
                program.aliases@.len() as int,
                n,
            ),
        forall|n: Ident| #[trigger]
            r.datas.cons_place(n) == variant_place(
                Seq::empty(),
                Seq::empty(),
                program.datas@,
                program.datas@.len() as int,
                0,
                n,
            ),
        conses_filled(
            r.datas,
            r.datas,
            r.tys@,
            program,
            &r.registered,
            program.datas@.len() as int,
            0,
        ),
        aliases_filled(
            r.datas,
            r.datas,
            r.tys@,
            program,
            &r.registered,
            program.aliases@.len() as int,
        ),
        r.defs@.len() == r.typed@.len(),
        forall|k: int|
            0 <= k < r.typed@.len() ==> def_entry(
                r.tys@,
                r.datas,
                (r.datas.scopes().len() - program.defs@.len()) as nat,
                program,
                r.registered.sources@,
                #[trigger] r.defs@[k],
                firsts(program.defs@, program.defs@.len())[k],
            ),
        r.errors@.len() == told_upto(seen(program, r), r.typed@.len()),
        forall|k: int| 0 <= k < r.typed@.len() ==> #[trigger] def_checked(seen(program, r), k),
        r.errors@.len() == 0 ==> forall|i: int|
            0 <= i < r.typed@.len() ==> reports(r.datas, (#[trigger] r.typed@[i]).body).len() == 0,
        r.errors@.len() == 0 ==> r.typed@.len() == program.defs@.len() && forall|i: int|
            0 <= i < r.typed@.len() ==> (#[trigger] r.typed@[i]).name == program.defs@[i].name
                && expr_typed(r.typed@[i].body, program.defs@[i].body, judged(r.tys@)),
{
    let mut tys = Types::new();
    let mut datas = Datas::new();
    let mut defs = Defs::new();
    let mut errors: Vec<Error> = Vec::new();
    let ghost d0 = datas;
    let reg = register_types(program, &mut datas, &mut errors);
    let ghost d1 = datas;
    define_types(program, &mut tys, &mut datas, &reg, &mut errors);
    let ghost d2 = datas;
    let ghost t2 = tys@;
    let ids = register_defs(program, &mut tys, &mut datas, &mut defs, &reg, &mut errors);
    let ghost t3 = tys@;
    let ghost pre = errors@;
    let ghost decls = program.defs@;
    let ghost base = d2.scopes().len();
    let count = defs.len();
    let ghost defs3 = defs@;
    proof {
        let n = program.datas@.len();
        let m = program.aliases@.len();
        let q = decls.len();
        assert(d0.types() =~= Seq::<TypeEntry>::empty());
        assert(d0.conses() =~= Seq::<Cons>::empty());
        lemma_same_names(d2, d1);
        lemma_kept_params(d2, datas);
        assert(same_envs(d2, d1, &reg));
        assert(same_envs(datas, d2, &reg)) by {
            assert forall|x: int| 0 <= x < reg.datas@.len() implies (match #[trigger] reg.datas@[x] {
                Some(d) => scope_env(datas, datas.datas()[d.0 as int].gen_scope) == scope_env(
                    d2,
                    d2.datas()[d.0 as int].gen_scope,
                ),
                None => true,
            }) by {
                match reg.datas@[x] {
                    Some(d) => {
                        assert(d2.datas()[d.0 as int].gen_scope.0 < d2.scopes().len());
                    },
                    None => {},
                }
            }
            assert forall|x: int| 0 <= x < reg.aliases@.len() implies (
            match #[trigger] reg.aliases@[x] {
                Some(i) => scope_env(datas, datas.aliases()[i.0 as int].gen_scope) == scope_env(
                    d2,
                    d2.aliases()[i.0 as int].gen_scope,
                ),
                None => true,
            }) by {
                match reg.aliases@[x] {
                    Some(i) => {
                        assert(d2.aliases()[i.0 as int].gen_scope.0 < d2.scopes().len());
                    },
                    None => {},
                }
            }
        }
        lemma_data_reports_same(d2, datas, d1, program, &reg, n);
        lemma_data_reports_alike(datas, d2, d1, program, &reg, n);
        lemma_data_reports_alike(datas, datas, d2, program, &reg, n);
        lemma_alias_reports_same(d2, datas, d1, program, &reg, m);
        lemma_alias_reports_alike(datas, d2, d1, program, &reg, m);
        lemma_alias_reports_alike(datas, datas, d2, program, &reg, m);
        lemma_def_reports_alike(datas, d2, base, program, reg.sources@, hole_of(t3), q);
        assert(pre =~= setup_reports(program, &reg, datas, t3));
        assert(d0.scopes() =~= Seq::<Seq<Named>>::empty());
        assert(datas.scopes() =~= decl_scopes(program, (n + m + q) as nat));
        assert forall|j: int| 0 <= j < n implies #[trigger] data_entry(
            &datas,
            0,
            program.datas@,
            reg.datas@,
            reg.conses@,
            j,
        ) by {
            assert(data_entry(&d1, 0, program.datas@, reg.datas@, reg.conses@, j));
            assert(datas.type_of(program.datas@[j].name) == d1.type_of(program.datas@[j].name));
            assert forall|c: int| 0 <= c < d1.conses().len() implies (
            #[trigger] datas.conses()[c]).name == d1.conses()[c].name && datas.conses()[c].span
                == d1.conses()[c].span && datas.conses()[c].data == d1.conses()[c].data by {
                assert(d2.conses()[c].name == d1.conses()[c].name);
            }
            lemma_data_entry_kept(&d1, &datas, 0, program.datas@, reg.datas@, reg.conses@, j);
        }
        assert forall|j: int| 0 <= j < n implies (match #[trigger] reg.datas@[j] {
            Some(d) => data_is(&datas, d, program.datas@[j]),
            None => true,
        }) by {
            match reg.datas@[j] {
                Some(d) => {
                    assert(data_is(&d1, d, program.datas@[j]));
                },
                None => {},
            }
        }
        assert forall|x: int| 0 <= x < m implies #[trigger] alias_entry(
            &datas,
            n,
            program,
            reg.aliases@,
            x,
        ) by {
            assert(alias_entry(
                &d1,
                (d0.scopes().len() + program.datas@.len()) as nat,
                program,
                reg.aliases@,
                x,
            ));
            assert(alias_entry(&d1, n, program, reg.aliases@, x));
            assert(datas.type_of(program.aliases@[x].name) == d1.type_of(
                program.aliases@[x].name,
            ));
            match reg.aliases@[x] {
                Some(al) => {
                    assert(d2.aliases()[al.0 as int].name == d1.aliases()[al.0 as int].name);
                    assert(d2.aliases()[al.0 as int].gen_scope == d1.aliases()[al.0 as int].gen_scope);
                },
                None => {},
            }
        }
        assert forall|nm: Ident| #[trigger]
            datas.type_place(nm) == alias_place(Seq::empty(), program, m as int, nm) by {
            assert(datas.type_place(nm) == d1.type_place(nm));
        }
        assert forall|nm: Ident| #[trigger]
            datas.cons_place(nm) == variant_place(
            Seq::empty(),
            Seq::empty(),
            program.datas@,
            n as int,
            0,
            nm,
        ) by {
            lemma_cons_place_same(d1, datas, nm);
        }
    }
    let mut typed: Vec<TypedDef> = Vec::new();
    let mut i: usize = 0;
    while i < program.defs.len()
        invariant
            i <= program.defs.len(),
            ids@.len() == program.defs@.len(),
            decls == program.defs@,
            sigs_ok(&tys, &datas, &defs),
            extends(t3, tys@),
            extends(t2, t3),
            pre.len() <= errors@.len(),
            errors@.take(pre.len() as int) == pre,
            forall|j: int|
                0 <= j < ids@.len() ==> ((#[trigger] ids@[j]) is Some) == !named_before(decls, j),
            forall|j: int|
                0 <= j < ids@.len() ==> (match #[trigger] ids@[j] {
                    Some(d) => d.0 < defs@.len(),
                    None => true,
                }),
            typed@.len() == firsts(decls, i as nat).len(),
            defs@.len() == firsts(decls, decls.len()).len(),
            defs@.len() == count,
            defs3.len() == count,
            forall|d: int|
                0 <= d < defs@.len() ==> (Def { ty: None, ..#[trigger] defs@[d] }) == (Def {
                    ty: None,
                    ..defs3[d]
                }),
            forall|j: int|
                0 <= j < ids@.len() ==> (match #[trigger] ids@[j] {
                    Some(d) => def_entry(t3, d2, base, program, reg.sources@, defs3[d.0 as int], j),
                    None => true,
                }),
            forall|k: int|
                0 <= k < typed@.len() ==> def_entry(
                    t3,
                    d2,
                    base,
                    program,
                    reg.sources@,
                    #[trigger] defs3[k],
                    firsts(decls, i as nat)[k],
                ),
            forall|j: int|
                0 <= j < ids@.len() ==> (match #[trigger] ids@[j] {
                    Some(d) => d.0 == firsts(decls, j as nat).len(),
                    None => true,
                }),
            forall|d: int|
                typed@.len() <= d < defs@.len() ==> (#[trigger] defs@[d]).ty == defs@[d].hint,
            forall|d: int|
                0 <= d < defs@.len() ==> (match (#[trigger] defs@[d]).hint {
                    Some(h) => h.0 < tys@.len(),
                    None => true,
                }),
            errors@.len() == told_upto(
                now(decls, i as nat, datas, defs@, tys@, typed@, errors@, pre.len()),
                typed@.len(),
            ),
            forall|k: int|
                0 <= k < typed@.len() ==> #[trigger] def_checked(
                    now(decls, i as nat, datas, defs@, tys@, typed@, errors@, pre.len()),
                    k,
                ),
            forall|k: int|
                0 <= k < typed@.len() ==> typed_as(
                    #[trigger] typed@[k],
                    decls[firsts(decls, i as nat)[k]],
                    tys@,
                ),
            forall|k: int|
                0 <= k < typed@.len() ==> 0 <= #[trigger] firsts(decls, i as nat)[k] < i,
            errors@.len() == 0 ==> forall|j: int|
                0 <= j < typed@.len() ==> reports(datas, (#[trigger] typed@[j]).body).len() == 0,
            errors@.len() == 0 ==> forall|j: int|
                0 <= j < ids@.len() ==> (#[trigger] ids@[j]) is Some,
            errors@.len() == 0 ==> typed@.len() == i && forall|j: int|
                0 <= j < typed@.len() ==> (#[trigger] typed@[j]).name == program.defs@[j].name
                    && expr_typed(typed@[j].body, program.defs@[j].body, judged(tys@)),
        decreases program.defs.len() - i,
    {
        let ghost order = firsts(decls, i as nat);
        let ghost c1 = now(decls, i as nat, datas, defs@, tys@, typed@, errors@, pre.len());
        match ids[i] {
            None => {
                assert(firsts(decls, (i + 1) as nat) == order);
            },
            Some(id) => {
                let ghost before = tys@;
                let ghost done = typed@;
                let ghost heard = errors@;
                let ghost known = defs@;
                let reported = errors.len();
                let checked = check_def(&mut tys, &datas, &defs, &program.defs[i], id, &mut errors);
                let undecided = match defs.get(id).ty {
                    None => true,
                    Some(_) => false,
                };
                if undecided && errors.len() == reported {
                    defs.set_ty(id, Some(checked.ty));
                    proof {
                        assert forall|d: int| 0 <= d < defs@.len() implies (
                        #[trigger] defs@[d]).gen_scope.0 < datas.scopes().len() && (
                        match defs@[d].ty {
                            Some(t) => t.0 < tys@.len(),
                            None => true,
                        }) by {
                            assert(known[d].gen_scope.0 < datas.scopes().len());
                        }
                    }
                }
                typed.push(checked);
                proof {
                    lemma_extends_trans(t3, before, tys@);
                    assert(errors@.take(pre.len() as int) =~= pre) by {
                        assert(errors@.take(heard.len() as int) == heard);
                        assert forall|k: int| 0 <= k < pre.len() implies errors@[k] == pre[k] by {
                            assert(errors@.take(heard.len() as int)[k] == errors@[k]);
                            assert(heard.take(pre.len() as int)[k] == heard[k]);
                        }
                    }
                    if errors@.len() == 0 {
                        assert forall|j: int| 0 <= j < typed@.len() implies (
                        #[trigger] typed@[j]).name == program.defs@[j].name && expr_typed(
                            typed@[j].body,
                            program.defs@[j].body,
                            judged(tys@),
                        ) by {
                            if j < done.len() {
                                assert(typed@[j] == done[j]);
                                lemma_judged_extends(
                                    done[j].body,
                                    program.defs@[j].body,
                                    before,
                                    tys@,
                                );
                            }
                        }
                    }
                    lemma_known_slot_mono(before.len(), tys@.len());
                    let next = firsts(decls, (i + 1) as nat);
                    assert(next == order.push(i as int));
                    assert forall|k: int| 0 <= k < typed@.len() implies typed_as(
                        #[trigger] typed@[k],
                        decls[next[k]],
                        tys@,
                    ) by {
                        if k < done.len() {
                            assert(typed@[k] == done[k]);
                            assert(next[k] == order[k]);
                            assert(typed_as(done[k], decls[order[k]], before));
                            lemma_expr_weaken(
                                done[k].body,
                                decls[order[k]].body,
                                known_slot(before.len()),
                                known_slot(tys@.len()),
                            );
                        } else {
                            assert(next[k] == i);
                        }
                    }
                    assert forall|k: int| 0 <= k < typed@.len() implies 0 <= #[trigger] next[k] < i
                        + 1 by {
                        if k < done.len() {
                            assert(next[k] == order[k]);
                        }
                    }
                    assert forall|x: int| 0 <= x < typed@.len() implies def_entry(
                        t3,
                        d2,
                        base,
                        program,
                        reg.sources@,
                        #[trigger] defs3[x],
                        next[x],
                    ) by {
                        if x < done.len() {
                            assert(next[x] == order[x]);
                        } else {
                            assert(ids@[i as int] == Some(id));
                            assert(id.0 == x);
                        }
                    }
                    let k = done.len() as int;
                    let c2 = now(
                        decls,
                        (i + 1) as nat,
                        datas,
                        defs@,
                        tys@,
                        typed@,
                        errors@,
                        pre.len(),
                    );
                    assert(id.0 == k);
                    assert forall|d: int| 0 <= d < known.len() implies (Def {
                        ty: None,
                        ..#[trigger] defs@[d]
                    }) == (Def { ty: None, ..known[d] }) by {}
                    assert(seen_kept(c1, c2, k as nat)) by {
                        assert(errors@.take(heard.len() as int) == heard);
                    }
                    assert(fields_known(datas, before.len()));
                    assert(defs_known(known, before.len()));
                    lemma_seen_kept(c1, c2, k as nat);
                    assert(told_upto(c2, k as nat) == told_upto(c1, k as nat));
                    assert(defs_before(defs@, k as nat) =~= known) by {
                        assert forall|d: int| 0 <= d < known.len() implies #[trigger] defs_before(
                            defs@,
                            k as nat,
                        )[d] == known[d] by {
                            assert((Def { ty: None, ..defs@[d] }) == (Def { ty: None, ..known[d] }));
                            assert(defs@[d].hint == known[d].hint);
                            if d >= k {
                                assert(known[d].ty == known[d].hint);
                            }
                        }
                    }
                    lemma_def_same(before, tys@, datas, known, decls[i as int], id);
                    let m = def_model(c2, k);
                    assert(m == def_m(before, datas, known, decls[i as int], id));
                    assert(told_upto(c2, (k + 1) as nat) == told_upto(c2, k as nat) + def_len(c2, k));
                    assert(errors@.take(heard.len() as int) == heard);
                    assert(errors@.take(errors@.len() as int) =~= errors@);
                    assert(def_len(c2, k) == errors@.len() - heard.len());
                    assert(def_checked(c2, k));
                    assert forall|j: int| 0 <= j < typed@.len() implies #[trigger] def_checked(
                        c2,
                        j,
                    ) by {}
                    assert forall|d: int| 0 <= d < defs@.len() implies (match (
                    #[trigger] defs@[d]).hint {
                        Some(h) => h.0 < tys@.len(),
                        None => true,
                    }) by {
                        assert(defs@[d].hint == known[d].hint);
                    }
                }
            },
        }
        i += 1;
    }
    proof {
        let q = decls.len();
        let rd = reg.sources@;
        lemma_def_reports_alike(datas, d2, base, program, rd, hole_of(t3), q);
        if holes_used(datas, base, program, rd, q as int) {
            lemma_hole_extends(t3, tys@);
        }
        lemma_def_reports_hole(datas, base, program, rd, hole_of(t3), hole_of(tys@), q);
        assert(pre =~= setup_reports(program, &reg, datas, tys@));
    }
    proof {
        lemma_kept_params(d2, datas);
        lemma_same_names(d2, d1);
        lemma_filled_alike(datas, d2, d1, t2, program, &reg);
        lemma_filled_alike(datas, datas, d2, t2, program, &reg);
        lemma_extends_trans(t2, t3, tys@);
        assert forall|x: int, y: int|
            0 <= x < program.datas@.len() && 0 <= y < program.datas@[x].variants@.len() && y
                < reg.conses@[x]@.len() implies #[trigger] variant_filled(
            datas,
            datas,
            tys@,
            program,
            &reg,
            x,
            y,
        ) by {
            assert(variant_filled(d2, d1, t2, program, &reg, x, y));
            lemma_variant_kept(d2, datas, d1, t2, t2, program, &reg, x, y);
            assert(variant_filled(datas, d1, t2, program, &reg, x, y));
            assert(variant_filled(datas, d2, t2, program, &reg, x, y));
            assert(variant_filled(datas, datas, t2, program, &reg, x, y));
            lemma_variant_kept(datas, datas, datas, t2, tys@, program, &reg, x, y);
        }
        assert forall|j: int| 0 <= j < program.aliases@.len() implies #[trigger] alias_filled(
            datas,
            datas,
            tys@,
            program,
            &reg,
            j,
        ) by {
            assert(alias_filled(d2, d1, t2, program, &reg, j));
            lemma_alias_kept(d2, datas, d1, t2, t2, program, &reg, j);
            assert(alias_filled(datas, d1, t2, program, &reg, j));
            assert(alias_filled(datas, d2, t2, program, &reg, j));
            assert(alias_filled(datas, datas, t2, program, &reg, j));
            lemma_alias_kept(datas, datas, datas, t2, tys@, program, &reg, j);
        }
        let order = firsts(decls, decls.len());
        assert forall|k: int| 0 <= k < typed@.len() implies def_entry(
            tys@,
            datas,
            base,
            program,
            reg.sources@,
            #[trigger] defs@[k],
            order[k],
        ) by {
            let i = order[k];
            let e = defs3[k];
            assert(def_entry(t3, d2, base, program, reg.sources@, e, i));
            assert((Def { ty: None, ..defs@[k] }) == (Def { ty: None, ..defs3[k] }));
            match decls[i].hint {
                Some(t) => {
                    lemma_shape_extends(t3, tys@, e.hint.unwrap().0 as nat);
                    lemma_expand_alike(
                        datas,
                        d2,
                        program.aliases@,
                        reg.sources@,
                        t,
                        def_env(base, decls[i], i),
                        Seq::empty(),
                    );
                },
                None => {},
            }
        }
    }
    let r = Analysis { tys, datas, defs, registered: reg, typed, errors };
    proof {
        assert(seen(program, r) == now(
            decls,
            decls.len(),
            r.datas,
            r.defs@,
            r.tys@,
            r.typed@,
            r.errors@,
            pre.len(),
        ));
    }
    r
}

} // verus!
