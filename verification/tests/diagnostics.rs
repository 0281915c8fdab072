use tao_analysis::data::{Datas, Named};
use tao_analysis::display::{display, display_with};
use tao_analysis::error::{Color, Diagnostic, Error, Label, Piece};
use tao_analysis::example::ExamplePat;
use tao_analysis::hir::{BinaryOp, SrcNode, UnaryOp};
use tao_analysis::span::{Ident, Span, SrcId};
use tao_analysis::text::Names;
use tao_analysis::ty::{AliasId, DataId, GenScopeId, Prim, Ty, TyId, Types};

struct World {
    tys: Types,
    datas: Datas,
    names: Names,
    nat: TyId,
    list: TyId,
    generic: TyId,
    pair: TyId,
    maybe: Ident,
}

fn sp(n: usize) -> Span {
    Span::new(SrcId(3), n, n + 2)
}

fn world() -> World {
    let mut names = Names::new();
    let maybe = names.intern("Maybe");
    let item = names.intern("A");
    let pair_name = names.intern("Pair");
    let alias = names.intern("Loop");
    let mut datas = Datas::new();
    let (scope, _) = datas.declare_scope(&vec![Named { name: item, span: sp(50) }]);
    let data = datas.declare_data(maybe, sp(51), scope).unwrap();
    let _ = datas.declare_data(pair_name, sp(52), scope).unwrap();
    let loop_id = datas.declare_alias(alias, sp(53), scope).unwrap();
    let mut tys = Types::new();
    let nat = tys.intern(Ty::Prim(Prim::Nat), sp(10));
    let list = tys.intern(Ty::List(nat), sp(11));
    let generic = tys.intern(Ty::Gen(0, scope), sp(12));
    let applied = tys.intern(Ty::Data(data, vec![generic]), sp(13));
    let pair = tys.intern(Ty::Tuple(vec![nat, applied]), sp(14));
    let err = tys.intern(Ty::Error, sp(15));
    let target = tys.intern(Ty::Func(err, list), sp(16));
    datas.define_alias(loop_id, target);
    World { tys, datas, names, nat, list, generic, pair, maybe }
}

fn plain(s: &str) -> Piece {
    Piece { text: s.to_string(), color: None }
}

fn red(s: &str) -> Piece {
    Piece { text: s.to_string(), color: Some(Color::Red) }
}

fn blue(s: &str) -> Piece {
    Piece { text: s.to_string(), color: Some(Color::Blue) }
}

fn label(span: Span, s: &str, color: Color) -> Label {
    Label { span, text: vec![plain(s)], color }
}

fn words(w: &World, e: Error) -> Diagnostic {
    e.diagnostic(&w.tys, &w.datas, &w.names)
}

#[test]
fn types_are_written_out() {
    let mut w = world();
    assert_eq!(display(&w.tys, &w.datas, &w.names, w.nat), "Nat");
    assert_eq!(display(&w.tys, &w.datas, &w.names, w.list), "[Nat]");
    assert_eq!(display(&w.tys, &w.datas, &w.names, w.generic), "A");
    assert_eq!(display(&w.tys, &w.datas, &w.names, w.pair), "(Nat, (Maybe A))");
    assert_eq!(display(&w.tys, &w.datas, &w.names, TyId(99)), "?");
    let f = w.tys.intern(Ty::Func(w.list, w.pair), sp(0));
    assert_eq!(display(&w.tys, &w.datas, &w.names, f), "([Nat] -> (Nat, (Maybe A)))");
    let plain_data = w.tys.intern(Ty::Data(DataId(1), vec![]), sp(0));
    assert_eq!(display(&w.tys, &w.datas, &w.names, plain_data), "Pair");
    let two = w.tys.intern(Ty::Data(DataId(1), vec![w.nat, w.list]), sp(0));
    assert_eq!(display(&w.tys, &w.datas, &w.names, two), "(Pair Nat [Nat])");
    let unknown_data = w.tys.intern(Ty::Data(DataId(7), vec![]), sp(0));
    assert_eq!(display(&w.tys, &w.datas, &w.names, unknown_data), "?");
    let unknown_gen = w.tys.intern(Ty::Gen(4, GenScopeId(0)), sp(0));
    assert_eq!(display(&w.tys, &w.datas, &w.names, unknown_gen), "?");
    let err = w.tys.intern(Ty::Error, sp(0));
    assert_eq!(display(&w.tys, &w.datas, &w.names, err), "!");
    let unit = w.tys.intern(Ty::Tuple(vec![]), sp(0));
    assert_eq!(display(&w.tys, &w.datas, &w.names, unit), "()");
    for (p, text) in [
        (Prim::Bool, "Bool"),
        (Prim::Int, "Int"),
        (Prim::Real, "Real"),
        (Prim::Char, "Char"),
    ] {
        let id = w.tys.intern(Ty::Prim(p), sp(0));
        assert_eq!(display(&w.tys, &w.datas, &w.names, id), text);
    }
    let hole = Some((w.nat, "Self".to_string()));
    assert_eq!(display_with(&w.tys, &w.datas, &w.names, &hole, w.pair), "(Self, (Maybe A))");
}

#[test]
fn mismatch_is_put_into_words() {
    let w = world();
    let d = words(&w, Error::Mismatch(w.nat, w.list, Some(sp(1))));
    assert_eq!(
        d,
        Diagnostic {
            message: vec![plain("Type mismatch between "), red("Nat"), plain(" and "), red("[Nat]")],
            labels: vec![
                label(sp(10), "Nat", Color::Red),
                label(sp(11), "[Nat]", Color::Red),
                label(sp(1), "Types must be equal here", Color::Yellow),
            ],
            notes: vec![],
        }
    );
    let d = words(&w, Error::Mismatch(w.nat, TyId(77), None));
    assert_eq!(
        d.labels,
        vec![
            label(sp(10), "Nat", Color::Red),
            label(Span::new(SrcId(0), 0, 0), "?", Color::Red)
        ]
    );
}

#[test]
fn inference_failures_are_put_into_words() {
    let w = world();
    assert_eq!(
        words(&w, Error::CannotInfer(w.list, None)),
        Diagnostic {
            message: vec![plain("Cannot infer type "), red("[Nat]")],
            labels: vec![label(sp(11), "[Nat]", Color::Red)],
            notes: vec![],
        }
    );
    assert_eq!(
        words(&w, Error::CannotInfer(w.list, Some(sp(2)))),
        Diagnostic {
            message: vec![plain("Cannot infer type "), red("[Nat]")],
            labels: vec![
                label(sp(11), "Use of generic definition", Color::Red),
                label(sp(2), "Instantiation of this generic type", Color::Red),
            ],
            notes: vec![],
        }
    );
    assert_eq!(
        words(&w, Error::Recursive(w.list, sp(3), sp(4))),
        Diagnostic {
            message: vec![plain("Recursive type "), red("[Nat]")],
            labels: vec![
                label(sp(3), "Mentions itself", Color::Red),
                label(sp(4), "Recursive element is here", Color::Red),
            ],
            notes: vec![],
        }
    );
    assert_eq!(
        words(&w, Error::DefTypeNotSpecified(sp(5), sp(6), w.maybe)),
        Diagnostic {
            message: vec![plain("Type of "), red("Maybe"), plain(" must be fully specified")],
            labels: vec![
                label(sp(5), "Definition does not have a fully specified type hint", Color::Red),
                label(sp(6), "Type must be fully known here", Color::Yellow),
            ],
            notes: vec![vec![plain("Add a type hint to the def like "), blue("def Maybe : ...")]],
        }
    );
}

#[test]
fn missing_names_are_put_into_words() {
    let w = world();
    let name = SrcNode { inner: w.maybe, span: sp(7) };
    assert_eq!(
        words(&w, Error::NoSuchField(w.pair, name)),
        Diagnostic {
            message: vec![
                plain("No such field "),
                red("Maybe"),
                plain(" on "),
                red("(Nat, (Maybe A))")
            ],
            labels: vec![
                label(sp(14), "(Nat, (Maybe A))", Color::Red),
                label(sp(7), "Field", Color::Red)
            ],
            notes: vec![],
        }
    );
    assert_eq!(
        words(&w, Error::NoSuchLocal(name)),
        Diagnostic {
            message: vec![plain("No such local "), red("Maybe")],
            labels: vec![label(sp(7), "Scope does not contain this", Color::Red)],
            notes: vec![],
        }
    );
    assert_eq!(
        words(&w, Error::NoSuchData(name)),
        Diagnostic {
            message: vec![plain("No such type "), red("Maybe")],
            labels: vec![label(sp(7), "Does not exist", Color::Red)],
            notes: vec![],
        }
    );
    assert_eq!(
        words(&w, Error::NoSuchCons(SrcNode { inner: Ident(99), span: sp(8) })),
        Diagnostic {
            message: vec![plain("No such constructor "), red("?")],
            labels: vec![label(sp(8), "Does not exist", Color::Red)],
            notes: vec![],
        }
    );
}

#[test]
fn counts_are_put_into_words() {
    let w = world();
    assert_eq!(
        words(&w, Error::WrongNumberOfParams(sp(1), 1, sp(2), 12)),
        Diagnostic {
            message: vec![plain("Pattern arms must all have the same number of parameters")],
            labels: vec![
                label(sp(1), "Has 1 parameter(s)", Color::Red),
                label(sp(2), "Has 12 parameter(s)", Color::Red),
            ],
            notes: vec![],
        }
    );
    assert_eq!(
        words(&w, Error::WrongNumberOfGenerics(sp(1), 1, sp(2), 2)),
        Diagnostic {
            message: vec![plain("Wrong number of type parameters")],
            labels: vec![
                label(sp(1), "Provided with 1 parameters", Color::Red),
                label(sp(2), "Has 2 parameter(s)", Color::Yellow),
            ],
            notes: vec![],
        }
    );
    assert_eq!(
        words(&w, Error::NoBranches(sp(3))),
        Diagnostic {
            message: vec![plain("Pattern match must have at least one branch")],
            labels: vec![label(sp(3), "Must have a branch", Color::Red)],
            notes: vec![],
        }
    );
}

#[test]
fn operators_are_put_into_words() {
    let w = world();
    let not = SrcNode { inner: UnaryOp::Not, span: Span::new(SrcId(3), 20, 21) };
    let operand = Span::new(SrcId(3), 22, 25);
    let applied = Label {
        span: Span::new(SrcId(3), 20, 25),
        text: vec![plain("Operation "), red("!"), plain(" applied here")],
        color: Color::Red,
    };
    assert_eq!(
        words(&w, Error::InvalidUnaryOp(not, w.nat, operand)),
        Diagnostic {
            message: vec![plain("Cannot apply "), red("!"), plain(" to "), red("Nat")],
            labels: vec![applied],
            notes: vec![],
        }
    );
    let neg = SrcNode { inner: UnaryOp::Neg, span: Span::new(SrcId(3), 20, 21) };
    let d = words(&w, Error::InvalidUnaryOp(neg, w.generic, operand));
    assert_eq!(d.message, vec![plain("Cannot apply "), red("-"), plain(" to "), red("A")]);
    assert_eq!(
        d.notes,
        vec![vec![plain("Consider adding a typeclass constraint like "), blue("A < Neg")]]
    );
    let add = SrcNode { inner: BinaryOp::Add, span: Span::new(SrcId(3), 30, 31) };
    let left = Span::new(SrcId(3), 26, 29);
    let right = Span::new(SrcId(3), 32, 40);
    let d = words(&w, Error::InvalidBinaryOp(add, w.generic, left, w.list, right));
    assert_eq!(
        d,
        Diagnostic {
            message: vec![
                plain("Invalid operation "),
                red("A"),
                plain(" "),
                red("+"),
                plain(" "),
                red("[Nat]")
            ],
            labels: vec![Label {
                span: Span::new(SrcId(3), 26, 40),
                text: vec![plain("Operation "), red("+"), plain(" applied here")],
                color: Color::Red,
            }],
            notes: vec![vec![
                plain("Consider adding a typeclass constraint like "),
                blue("A < Add [Nat]")
            ]],
        }
    );
    let d = words(&w, Error::InvalidBinaryOp(add, w.nat, left, w.list, right));
    assert_eq!(d.notes, Vec::<Vec<Piece>>::new());
    let join = SrcNode { inner: BinaryOp::Join, span: sp(30) };
    assert_eq!(
        words(&w, Error::PatternNotSupported(w.nat, join, w.list, sp(9))),
        Diagnostic {
            message: vec![
                plain("Arithmetic pattern "),
                red("Nat"),
                plain(" "),
                red("++"),
                plain(" "),
                red("[Nat]"),
                plain(" is not supported")
            ],
            labels: vec![Label {
                span: sp(9),
                text: vec![plain("Pattern "), red("++"), plain(" used here")],
                color: Color::Red,
            }],
            notes: vec![vec![
                plain("Only specific arithmetic patterns, such as "),
                blue("Nat + Nat"),
                plain(", are supported")
            ]],
        }
    );
}

#[test]
fn operator_signs_and_names() {
    let signs = [
        (BinaryOp::Add, "+", "Add"),
        (BinaryOp::Sub, "-", "Sub"),
        (BinaryOp::Mul, "*", "Mul"),
        (BinaryOp::Div, "/", "Div"),
        (BinaryOp::Rem, "%", "Rem"),
        (BinaryOp::Eq, "=", "Eq"),
        (BinaryOp::NotEq, "!=", "NotEq"),
        (BinaryOp::Less, "<", "Less"),
        (BinaryOp::LessEq, "<=", "LessEq"),
        (BinaryOp::More, ">", "More"),
        (BinaryOp::MoreEq, ">=", "MoreEq"),
        (BinaryOp::And, "and", "And"),
        (BinaryOp::Or, "or", "Or"),
        (BinaryOp::Join, "++", "Join"),
    ];
    for (op, sign, name) in signs {
        assert_eq!(op.sign(), sign);
        assert_eq!(op.name(), name);
    }
    assert_eq!(UnaryOp::Neg.sign(), "-");
    assert_eq!(UnaryOp::Not.sign(), "!");
    assert_eq!(UnaryOp::Neg.name(), "Neg");
    assert_eq!(UnaryOp::Not.name(), "Not");
}

#[test]
fn recursive_alias_is_put_into_words() {
    let mut w = world();
    let err = w.tys.intern(Ty::Error, sp(0));
    assert_eq!(
        words(&w, Error::RecursiveAlias(AliasId(0), err, sp(9))),
        Diagnostic {
            message: vec![plain("Recursive type alias")],
            labels: vec![
                label(
                    sp(53),
                    "Alias mentions itself, leading to an infinite expansion",
                    Color::Red
                ),
                label(sp(9), "Recursion occurs here", Color::Yellow),
            ],
            notes: vec![vec![
                plain("Type aliases expand eagerly. Consider using a data type like "),
                blue("data Loop = (Loop -> [Nat])"),
                plain(" instead.")
            ]],
        }
    );
    let d = words(&w, Error::RecursiveAlias(AliasId(4), err, sp(9)));
    assert_eq!(d.labels[0].span, Span::new(SrcId(0), 0, 0));
    assert_eq!(d.notes[0][1], blue("data ? = ?"));
}

#[test]
fn duplicates_are_put_into_words() {
    let w = world();
    let earlier = label(sp(1), "Previous declaration", Color::Yellow);
    let later = label(sp(2), "Conflicting declaration", Color::Red);
    for (e, kind) in [
        (Error::DuplicateTypeName(w.maybe, sp(1), sp(2)), "Type "),
        (Error::DuplicateDefName(w.maybe, sp(1), sp(2)), "Definition "),
        (Error::DuplicateConsName(w.maybe, sp(1), sp(2)), "Constructor "),
    ] {
        let d = words(&w, e);
        assert_eq!(d.message, vec![plain(kind), red("Maybe"), plain(" declared multiple times")]);
        assert_eq!(d.labels, vec![
            label(sp(1), "Previous declaration", Color::Yellow),
            label(sp(2), "Conflicting declaration", Color::Red)
        ]);
        assert_eq!(d.notes, Vec::<Vec<Piece>>::new());
    }
    assert_eq!(earlier.color, Color::Yellow);
    assert_eq!(later.color, Color::Red);
    assert_eq!(
        words(&w, Error::DuplicateGenName(w.maybe, sp(1), sp(2))),
        Diagnostic {
            message: vec![plain("Type parameter "), red("Maybe"), plain(" declared multiple times")],
            labels: vec![
                label(sp(1), "Previous type parameter", Color::Yellow),
                label(sp(2), "Conflicting type parameter", Color::Red),
            ],
            notes: vec![],
        }
    );
}

#[test]
fn missing_case_is_put_into_words() {
    let w = world();
    let example = ExamplePat::Cons(w.maybe, vec![ExamplePat::Wildcard]);
    assert_eq!(
        words(&w, Error::NotExhaustive(sp(4), example)),
        Diagnostic {
            message: vec![plain("Pattern match is not exhaustive")],
            labels: vec![Label {
                span: sp(4),
                text: vec![plain("Pattern "), red("Maybe _"), plain(" not covered")],
                color: Color::Red,
            }],
            notes: vec![vec![
                plain("Add another arm like "),
                blue("| Maybe _ => ..."),
                plain(" to ensure that this case is covered.")
            ]],
        }
    );
}

#[test]
fn spans_are_joined() {
    let a = Span::new(SrcId(1), 5, 9);
    let b = Span::new(SrcId(2), 2, 7);
    assert_eq!(a.union(b), Span::new(SrcId(1), 2, 9));
    assert_eq!(b.union(a), Span::new(SrcId(2), 2, 9));
    assert_eq!(a.union(a), a);
}

#[test]
fn a_generic_operand_on_either_side_gets_the_constraint_note() {
    let w = world();
    let add = SrcNode { inner: BinaryOp::Add, span: Span::new(SrcId(3), 30, 31) };
    let left = Span::new(SrcId(3), 26, 29);
    let right = Span::new(SrcId(3), 32, 40);
    let d = words(&w, Error::InvalidBinaryOp(add, w.nat, left, w.generic, right));
    assert_eq!(
        d.notes,
        vec![vec![plain("Consider adding a typeclass constraint like "), blue("Nat < Add A")]]
    );
    let d = words(&w, Error::InvalidBinaryOp(add, w.generic, left, w.generic, right));
    assert_eq!(
        d.notes,
        vec![vec![plain("Consider adding a typeclass constraint like "), blue("A < Add A")]]
    );
    let d = words(&w, Error::InvalidBinaryOp(add, w.list, left, w.nat, right));
    assert_eq!(d.notes, Vec::<Vec<Piece>>::new());
}
