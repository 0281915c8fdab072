//! Types written out as text.

use crate::data::{Datas, Named};
use crate::span::Ident;
use crate::text::{name_text, Names};
use crate::ty::{DataId, GenScopeId, Prim, Ty, TyId, TyView, Types};
use vstd::prelude::*;

verus! {

/// The names that types are written with.
pub struct Naming {
    /// The name of each data type.
    pub data_names: Seq<Ident>,
    /// The lists of generic parameters.
    pub scopes: Seq<Seq<Named>>,
    /// The text of each name.
    pub texts: Seq<Seq<char>>,
}

/// The names that the registry `datas` and the table `names` give.
pub open spec fn naming(datas: &Datas, names: &Names) -> Naming {
    Naming {
        data_names: Seq::new(datas.datas().len(), |i: int| datas.datas()[i].name),
        scopes: datas.scopes(),
        texts: names@,
    }
}

/// The text of a primitive type.
pub open spec fn prim_text(p: Prim) -> Seq<char> {
    match p {
        Prim::Bool => "Bool"@,
        Prim::Nat => "Nat"@,
        Prim::Int => "Int"@,
        Prim::Real => "Real"@,
        Prim::Char => "Char"@,
    }
}

/// The name of the data type `data`.
pub open spec fn data_text(nm: Naming, data: DataId) -> Seq<char> {
    if data.0 < nm.data_names.len() {
        name_text(nm.texts, nm.data_names[data.0 as int])
    } else {
        "?"@
    }
}

/// The name of the generic parameter at the position `index` of the list `scope`.
pub open spec fn gen_text(nm: Naming, index: usize, scope: GenScopeId) -> Seq<char> {
    if scope.0 < nm.scopes.len() && index < nm.scopes[scope.0 as int].len() {
        name_text(nm.texts, nm.scopes[scope.0 as int][index as int].name)
    } else {
        "?"@
    }
}

/// The text that `hole` gives for the type `id`, if it names that type.
pub open spec fn filled(hole: Option<(TyId, Seq<char>)>, id: TyId) -> Option<Seq<char>> {
    match hole {
        Some((h, text)) => if h == id {
            Some(text)
        } else {
            None
        },
        None => None,
    }
}

/// The text of the type `id`. Where `hole` names a type, that type is written as the
/// text that comes with it.
///
/// The error type is written `!`, a list `[T]`, a tuple `(A, B)`, a function
/// `(A -> B)`, a data type by its name, in brackets with its arguments if it has
/// any: `(Name A B)`. A type that the store does not hold is written `?`.
pub open spec fn ty_text(
    tys: Seq<TyView>,
    nm: Naming,
    hole: Option<(TyId, Seq<char>)>,
    id: TyId,
) -> Seq<char>
    decreases id.0, 1nat, 0nat,
{
    if filled(hole, id) is Some {
        filled(hole, id).unwrap()
    } else if id.0 >= tys.len() {
        "?"@
    } else {
        match tys[id.0 as int] {
            TyView::Error => "!"@,
            TyView::Prim(p) => prim_text(p),
            TyView::List(item) => "["@ + part_text(tys, nm, hole, item, id) + "]"@,
            TyView::Tuple(fields) => "("@ + listed(
                tys,
                nm,
                hole,
                fields,
                id,
                ""@,
                ", "@,
                fields.len(),
            ) + ")"@,
            TyView::Func(i, o) => "("@ + part_text(tys, nm, hole, i, id) + " -> "@ + part_text(
                tys,
                nm,
                hole,
                o,
                id,
            ) + ")"@,
            TyView::Data(data, args) => if args.len() == 0 {
                data_text(nm, data)
            } else {
                "("@ + data_text(nm, data) + listed(
                    tys,
                    nm,
                    hole,
                    args,
                    id,
                    " "@,
                    " "@,
                    args.len(),
                ) + ")"@
            },
            TyView::Gen(index, scope) => gen_text(nm, index, scope),
        }
    }
}

/// The text of the part `part` of the type `whole`.
pub open spec fn part_text(
    tys: Seq<TyView>,
    nm: Naming,
    hole: Option<(TyId, Seq<char>)>,
    part: TyId,
    whole: TyId,
) -> Seq<char>
    decreases whole.0, 0nat, 0nat,
{
    if part.0 < whole.0 {
        ty_text(tys, nm, hole, part)
    } else {
        "?"@
    }
}

/// The texts of the first `upto` parts `parts` of the type `whole`, the first one
/// after `first`, each other one after `sep`.
pub open spec fn listed(
    tys: Seq<TyView>,
    nm: Naming,
    hole: Option<(TyId, Seq<char>)>,
    parts: Seq<TyId>,
    whole: TyId,
    first: Seq<char>,
    sep: Seq<char>,
    upto: nat,
) -> Seq<char>
    decreases whole.0, 0nat, upto + 1,
{
    if upto == 0 || upto > parts.len() {
        Seq::empty()
    } else {
        listed(tys, nm, hole, parts, whole, first, sep, (upto - 1) as nat) + (if upto == 1 {
            first
        } else {
            sep
        }) + part_text(tys, nm, hole, parts[upto - 1], whole)
    }
}

/// The type and text of a hole.
pub open spec fn hole_view(hole: &Option<(TyId, String)>) -> Option<(TyId, Seq<char>)> {
    match hole {
        Some(h) => Some((h.0, h.1@)),
        None => None,
    }
}

/// The text of a primitive type.
fn prim_str(p: Prim) -> (s: &'static str)
    ensures
        s@ == prim_text(p),
{
    match p {
        Prim::Bool => "Bool",
        Prim::Nat => "Nat",
        Prim::Int => "Int",
        Prim::Real => "Real",
        Prim::Char => "Char",
    }
}

/// The name of the data type `data`.
fn data_string(datas: &Datas, names: &Names, data: DataId) -> (s: String)
    ensures
        s@ == data_text(naming(datas, names), data),
{
    if data.0 < datas.data_count() {
        names.text(datas.get_data(data).name)
    } else {
        String::from_str("?")
    }
}

/// The name of the generic parameter at the position `index` of the list `scope`.
fn gen_string(datas: &Datas, names: &Names, index: usize, scope: GenScopeId) -> (s: String)
    ensures
        s@ == gen_text(naming(datas, names), index, scope),
{
    if scope.0 < datas.scope_count() {
        let params = datas.get_scope(scope);
        if index < params.len() {
            return names.text(params[index].name);
        }
    }
    String::from_str("?")
}

/// The text of the part `part` of the type `whole`.
fn part_string(
    types: &Types,
    datas: &Datas,
    names: &Names,
    hole: &Option<(TyId, String)>,
    part: TyId,
    whole: TyId,
) -> (s: String)
    ensures
        s@ == part_text(types@, naming(datas, names), hole_view(hole), part, whole),
    decreases whole.0, 0nat, 0nat,
{
    if part.0 < whole.0 {
        display_with(types, datas, names, hole, part)
    } else {
        String::from_str("?")
    }
}

/// The texts of the parts `parts` of the type `whole`, the first one after `first`,
/// each other one after `sep`.
fn listed_string(
    types: &Types,
    datas: &Datas,
    names: &Names,
    hole: &Option<(TyId, String)>,
    parts: &Vec<TyId>,
    whole: TyId,
    first: &str,
    sep: &str,
) -> (s: String)
    ensures
        s@ == listed(
            types@,
            naming(datas, names),
            hole_view(hole),
            parts@,
            whole,
            first@,
            sep@,
            parts@.len(),
        ),
    decreases whole.0, 0nat, 1nat,
{
    let mut s = String::new();
    let mut k: usize = 0;
    while k < parts.len()
        invariant
            k <= parts.len(),
            s@ == listed(
                types@,
                naming(datas, names),
                hole_view(hole),
                parts@,
                whole,
                first@,
                sep@,
                k as nat,
            ),
        decreases parts.len() - k,
    {
        if k == 0 {
            s.append(first);
        } else {
            s.append(sep);
        }
        let part = part_string(types, datas, names, hole, parts[k], whole);
        s.append(part.as_str());
        k += 1;
    }
    s
}

/// The text of the type `id`; where `hole` names a type, that type is written as the
/// text that comes with it.
pub fn display_with(
    types: &Types,
    datas: &Datas,
    names: &Names,
    hole: &Option<(TyId, String)>,
    id: TyId,
) -> (s: String)
    ensures
        s@ == ty_text(types@, naming(datas, names), hole_view(hole), id),
    decreases id.0, 1nat, 0nat,
{
    match hole {
        Some(h) => {
            if h.0 == id {
                return h.1.clone();
            }
        },
        None => {},
    }
    if id.0 >= types.len() {
        return String::from_str("?");
    }
    match types.get(id) {
        Ty::Error => String::from_str("!"),
        Ty::Prim(p) => String::from_str(prim_str(*p)),
        Ty::List(item) => {
            let mut s = String::from_str("[");
            let inner = part_string(types, datas, names, hole, *item, id);
            s.append(inner.as_str());
            s.append("]");
            s
        },
        Ty::Tuple(fields) => {
            let mut s = String::from_str("(");
            let inner = listed_string(types, datas, names, hole, fields, id, "", ", ");
            s.append(inner.as_str());
            s.append(")");
            s
        },
        Ty::Func(i, o) => {
            let mut s = String::from_str("(");
            let input = part_string(types, datas, names, hole, *i, id);
            s.append(input.as_str());
            s.append(" -> ");
            let output = part_string(types, datas, names, hole, *o, id);
            s.append(output.as_str());
            s.append(")");
            s
        },
        Ty::Data(data, args) => {
            if args.len() == 0 {
                data_string(datas, names, *data)
            } else {
                let mut s = String::from_str("(");
                let name = data_string(datas, names, *data);
                s.append(name.as_str());
                let inner = listed_string(types, datas, names, hole, args, id, " ", " ");
                s.append(inner.as_str());
                s.append(")");
                s
            }
        },
        Ty::Gen(index, scope) => gen_string(datas, names, *index, *scope),
    }
}

/// The text of the type `id`.
pub fn display(types: &Types, datas: &Datas, names: &Names, id: TyId) -> (s: String)
    ensures
        s@ == ty_text(types@, naming(datas, names), None, id),
{
    let hole: Option<(TyId, String)> = None;
    display_with(types, datas, names, &hole, id)
}

} // verus!
