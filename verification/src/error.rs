//! The errors that the analysis reports, and how each is put into words.

use crate::data::{Alias, Datas};
use crate::display::{display, display_with, naming, ty_text, Naming};
use crate::example::{example_text, ExamplePat};
use crate::hir::{binary_name, binary_text, unary_name, unary_text, BinaryOp, SrcNode, UnaryOp};
use crate::span::{Ident, Span, SrcId};
use crate::text::{decimal, decimal_string, name_text, Names};
use crate::ty::{AliasId, Ty, TyId, TyView, Types};
use vstd::prelude::*;

verus! {

/// An error found by the analysis.
#[derive(Debug, PartialEq, Eq)]
pub enum Error {
    /// Two types that must be equal are not; the span is the place that asks for it.
    Mismatch(TyId, TyId, Option<Span>),
    /// A type could not be determined; the span is the place where a generic
    /// definition was used, if the type comes from one.
    CannotInfer(TyId, Option<Span>),
    /// A type contains itself: the type, the place that mentions it, and the part that
    /// is the type again.
    Recursive(TyId, Span, Span),
    NoSuchField(TyId, SrcNode<Ident>),
    NoSuchLocal(SrcNode<Ident>),
    /// Two arms of a match have different numbers of parameters.
    WrongNumberOfParams(Span, usize, Span, usize),
    NoBranches(Span),
    InvalidUnaryOp(SrcNode<UnaryOp>, TyId, Span),
    InvalidBinaryOp(SrcNode<BinaryOp>, TyId, Span, TyId, Span),
    NoSuchData(SrcNode<Ident>),
    NoSuchCons(SrcNode<Ident>),
    /// An alias stands for a type that mentions the alias: the alias, the type that
    /// stands in for the mention, and the place of the mention.
    RecursiveAlias(AliasId, TyId, Span),
    /// A name is declared twice: the name, the earlier place and the later place.
    DuplicateTypeName(Ident, Span, Span),
    DuplicateDefName(Ident, Span, Span),
    DuplicateConsName(Ident, Span, Span),
    DuplicateGenName(Ident, Span, Span),
    PatternNotSupported(TyId, SrcNode<BinaryOp>, TyId, Span),
    /// A match leaves a case out; the example is a value of that case.
    NotExhaustive(Span, ExamplePat),
    /// A type is given a number of arguments that is not the number of its generic
    /// parameters: the use and the number given, the declaration and the number asked.
    WrongNumberOfGenerics(Span, usize, Span, usize),
    /// The type of a definition is not fully known: the definition, the place that
    /// needs the type, and the name.
    DefTypeNotSpecified(Span, Span, Ident),
}

/// How a part of a report is marked.
#[derive(Clone, Copy, Debug, PartialEq, Eq, Structural)]
pub enum Color {
    Red,
    Yellow,
    Blue,
}

/// A run of text, marked or not.
#[derive(Debug, PartialEq, Eq)]
pub struct Piece {
    pub text: String,
    pub color: Option<Color>,
}

/// A place in the source with the text that explains it.
#[derive(Debug, PartialEq, Eq)]
pub struct Label {
    pub span: Span,
    pub text: Vec<Piece>,
    pub color: Color,
}

/// An error put into words: a message, the places it concerns, the first of which is
/// the main one, and notes on what to do about it.
#[derive(Debug, PartialEq, Eq)]
pub struct Diagnostic {
    pub message: Vec<Piece>,
    pub labels: Vec<Label>,
    pub notes: Vec<Vec<Piece>>,
}

/// What a run of text is, as a mathematical value.
pub struct PieceView {
    pub text: Seq<char>,
    pub color: Option<Color>,
}

/// What a label is, as a mathematical value.
pub struct LabelView {
    pub span: Span,
    pub text: Seq<PieceView>,
    pub color: Color,
}

/// What a diagnostic is, as a mathematical value.
pub struct DiagnosticView {
    pub message: Seq<PieceView>,
    pub labels: Seq<LabelView>,
    pub notes: Seq<Seq<PieceView>>,
}

impl View for Piece {
    type V = PieceView;

    open spec fn view(&self) -> PieceView {
        PieceView { text: self.text@, color: self.color }
    }
}

/// The values of a sequence of runs of text.
pub open spec fn pieces_view(s: Seq<Piece>) -> Seq<PieceView> {
    Seq::new(s.len(), |i: int| s[i]@)
}

impl View for Label {
    type V = LabelView;

    open spec fn view(&self) -> LabelView {
        LabelView { span: self.span, text: pieces_view(self.text@), color: self.color }
    }
}

/// The values of a sequence of labels.
pub open spec fn labels_view(s: Seq<Label>) -> Seq<LabelView> {
    Seq::new(s.len(), |i: int| s[i]@)
}

/// The values of a sequence of notes.
pub open spec fn notes_view(s: Seq<Vec<Piece>>) -> Seq<Seq<PieceView>> {
    Seq::new(s.len(), |i: int| pieces_view(s[i]@))
}

impl View for Diagnostic {
    type V = DiagnosticView;

    open spec fn view(&self) -> DiagnosticView {
        DiagnosticView {
            message: pieces_view(self.message@),
            labels: labels_view(self.labels@),
            notes: notes_view(self.notes@),
        }
    }
}

/// A run of unmarked text.
pub open spec fn plain(text: Seq<char>) -> PieceView {
    PieceView { text, color: None }
}

/// A run of text marked red.
pub open spec fn red(text: Seq<char>) -> PieceView {
    PieceView { text, color: Some(Color::Red) }
}

/// A run of text marked blue.
pub open spec fn blue(text: Seq<char>) -> PieceView {
    PieceView { text, color: Some(Color::Blue) }
}

/// A label of unmarked text.
pub open spec fn note_at(span: Span, text: Seq<char>, color: Color) -> LabelView {
    LabelView { span, text: seq![plain(text)], color }
}

/// The place that stands for a type that the store holds no place for.
pub open spec fn nowhere() -> Span {
    Span { src: SrcId(0), start: 0, end: 0 }
}

/// The place in the source that introduced the type `id`.
pub open spec fn ty_span(spans: Seq<Span>, id: TyId) -> Span {
    if id.0 < spans.len() {
        spans[id.0 as int]
    } else {
        nowhere()
    }
}

/// Whether the type `id` is a generic parameter.
pub open spec fn is_gen(tys: Seq<TyView>, id: TyId) -> bool {
    id.0 < tys.len() && tys[id.0 as int] is Gen
}

/// The note that suggests a constraint, for an operator applied to a generic
/// parameter.
pub open spec fn constraint_note(wanted: Seq<char>) -> Seq<PieceView> {
    seq![plain("Consider adding a typeclass constraint like "@), blue(wanted)]
}

/// The two labels of a name declared twice.
pub open spec fn duplicate_labels(old: Span, new: Span, what: Seq<char>) -> Seq<LabelView> {
    seq![
        note_at(old, "Previous "@ + what, Color::Yellow),
        note_at(new, "Conflicting "@ + what, Color::Red),
    ]
}

/// The text of the type `id`.
pub open spec fn shown(tys: Seq<TyView>, nm: Naming, id: TyId) -> Seq<char> {
    ty_text(tys, nm, None, id)
}

/// The words for the error `e`, given the types `tys` with the places `spans` that
/// introduced them, the names `nm` and the aliases `aliases`.
pub open spec fn diagnostic_of(
    e: Error,
    tys: Seq<TyView>,
    spans: Seq<Span>,
    nm: Naming,
    aliases: Seq<Alias>,
) -> DiagnosticView {
    match e {
        Error::Mismatch(a, b, loc) => DiagnosticView {
            message: seq![
                plain("Type mismatch between "@),
                red(shown(tys, nm, a)),
                plain(" and "@),
                red(shown(tys, nm, b)),
            ],
            labels: match loc {
                Some(l) => seq![
                    note_at(ty_span(spans, a), shown(tys, nm, a), Color::Red),
                    note_at(ty_span(spans, b), shown(tys, nm, b), Color::Red),
                    note_at(l, "Types must be equal here"@, Color::Yellow),
                ],
                None => seq![
                    note_at(ty_span(spans, a), shown(tys, nm, a), Color::Red),
                    note_at(ty_span(spans, b), shown(tys, nm, b), Color::Red),
                ],
            },
            notes: Seq::empty(),
        },
        Error::CannotInfer(a, origin) => DiagnosticView {
            message: seq![plain("Cannot infer type "@), red(shown(tys, nm, a))],
            labels: match origin {
                Some(o) => seq![
                    note_at(ty_span(spans, a), "Use of generic definition"@, Color::Red),
                    note_at(o, "Instantiation of this generic type"@, Color::Red),
                ],
                None => seq![note_at(ty_span(spans, a), shown(tys, nm, a), Color::Red)],
            },
            notes: Seq::empty(),
        },
        Error::Recursive(a, span, part) => DiagnosticView {
            message: seq![plain("Recursive type "@), red(shown(tys, nm, a))],
            labels: seq![
                note_at(span, "Mentions itself"@, Color::Red),
                note_at(part, "Recursive element is here"@, Color::Red),
            ],
            notes: Seq::empty(),
        },
        Error::NoSuchField(a, field) => DiagnosticView {
            message: seq![
                plain("No such field "@),
                red(name_text(nm.texts, field.inner)),
                plain(" on "@),
                red(shown(tys, nm, a)),
            ],
            labels: seq![
                note_at(ty_span(spans, a), shown(tys, nm, a), Color::Red),
                note_at(field.span, "Field"@, Color::Red),
            ],
            notes: Seq::empty(),
        },
        Error::NoSuchLocal(local) => DiagnosticView {
            message: seq![plain("No such local "@), red(name_text(nm.texts, local.inner))],
            labels: seq![note_at(local.span, "Scope does not contain this"@, Color::Red)],
            notes: Seq::empty(),
        },
        Error::WrongNumberOfParams(a, a_count, b, b_count) => DiagnosticView {
            message: seq![plain("Pattern arms must all have the same number of parameters"@)],
            labels: seq![
                note_at(a, "Has "@ + decimal(a_count as nat) + " parameter(s)"@, Color::Red),
                note_at(b, "Has "@ + decimal(b_count as nat) + " parameter(s)"@, Color::Red),
            ],
            notes: Seq::empty(),
        },
        Error::NoBranches(span) => DiagnosticView {
            message: seq![plain("Pattern match must have at least one branch"@)],
            labels: seq![note_at(span, "Must have a branch"@, Color::Red)],
            notes: Seq::empty(),
        },
        Error::InvalidUnaryOp(op, a, a_span) => DiagnosticView {
            message: seq![
                plain("Cannot apply "@),
                red(unary_text(op.inner)),
                plain(" to "@),
                red(shown(tys, nm, a)),
            ],
            labels: seq![
                LabelView {
                    span: op.span.union_spec(a_span),
                    text: seq![
                        plain("Operation "@),
                        red(unary_text(op.inner)),
                        plain(" applied here"@),
                    ],
                    color: Color::Red,
                },
            ],
            notes: if is_gen(tys, a) {
                seq![constraint_note(shown(tys, nm, a) + " < "@ + unary_name(op.inner))]
            } else {
                Seq::empty()
            },
        },
        Error::InvalidBinaryOp(op, a, a_span, b, b_span) => DiagnosticView {
            message: seq![
                plain("Invalid operation "@),
                red(shown(tys, nm, a)),
                plain(" "@),
                red(binary_text(op.inner)),
                plain(" "@),
                red(shown(tys, nm, b)),
            ],
            labels: seq![
                LabelView {
                    span: a_span.union_spec(op.span).union_spec(b_span),
                    text: seq![
                        plain("Operation "@),
                        red(binary_text(op.inner)),
                        plain(" applied here"@),
                    ],
                    color: Color::Red,
                },
            ],
            notes: if is_gen(tys, a) || is_gen(tys, b) {
                seq![
                    constraint_note(
                        shown(tys, nm, a) + " < "@ + binary_name(op.inner) + " "@ + shown(
                            tys,
                            nm,
                            b,
                        ),
                    ),
                ]
            } else {
                Seq::empty()
            },
        },
        Error::NoSuchData(a) => DiagnosticView {
            message: seq![plain("No such type "@), red(name_text(nm.texts, a.inner))],
            labels: seq![note_at(a.span, "Does not exist"@, Color::Red)],
            notes: Seq::empty(),
        },
        Error::NoSuchCons(a) => DiagnosticView {
            message: seq![plain("No such constructor "@), red(name_text(nm.texts, a.inner))],
            labels: seq![note_at(a.span, "Does not exist"@, Color::Red)],
            notes: Seq::empty(),
        },
        Error::RecursiveAlias(alias, ty, span) => DiagnosticView {
            message: seq![plain("Recursive type alias"@)],
            labels: seq![
                note_at(
                    alias_span(aliases, alias),
                    "Alias mentions itself, leading to an infinite expansion"@,
                    Color::Red,
                ),
                note_at(span, "Recursion occurs here"@, Color::Yellow),
            ],
            notes: seq![
                seq![
                    plain("Type aliases expand eagerly. Consider using a data type like "@),
                    blue(
                        "data "@ + alias_name(aliases, nm, alias) + " = "@ + alias_target(
                            aliases,
                            tys,
                            nm,
                            alias,
                            ty,
                        ),
                    ),
                    plain(" instead."@),
                ],
            ],
        },
        Error::DuplicateTypeName(name, old, new) => DiagnosticView {
            message: seq![
                plain("Type "@),
                red(name_text(nm.texts, name)),
                plain(" declared multiple times"@),
            ],
            labels: duplicate_labels(old, new, "declaration"@),
            notes: Seq::empty(),
        },
        Error::DuplicateDefName(name, old, new) => DiagnosticView {
            message: seq![
                plain("Definition "@),
                red(name_text(nm.texts, name)),
                plain(" declared multiple times"@),
            ],
            labels: duplicate_labels(old, new, "declaration"@),
            notes: Seq::empty(),
        },
        Error::DuplicateConsName(name, old, new) => DiagnosticView {
            message: seq![
                plain("Constructor "@),
                red(name_text(nm.texts, name)),
                plain(" declared multiple times"@),
            ],
            labels: duplicate_labels(old, new, "declaration"@),
            notes: Seq::empty(),
        },
        Error::DuplicateGenName(name, old, new) => DiagnosticView {
            message: seq![
                plain("Type parameter "@),
                red(name_text(nm.texts, name)),
                plain(" declared multiple times"@),
            ],
            labels: duplicate_labels(old, new, "type parameter"@),
            notes: Seq::empty(),
        },
        Error::PatternNotSupported(lhs, op, rhs, span) => DiagnosticView {
            message: seq![
                plain("Arithmetic pattern "@),
                red(shown(tys, nm, lhs)),
                plain(" "@),
                red(binary_text(op.inner)),
                plain(" "@),
                red(shown(tys, nm, rhs)),
                plain(" is not supported"@),
            ],
            labels: seq![
                LabelView {
                    span,
                    text: seq![plain("Pattern "@), red(binary_text(op.inner)), plain(" used here"@)],
                    color: Color::Red,
                },
            ],
            notes: seq![
                seq![
                    plain("Only specific arithmetic patterns, such as "@),
                    blue("Nat + Nat"@),
                    plain(", are supported"@),
                ],
            ],
        },
        Error::NotExhaustive(span, example) => DiagnosticView {
            message: seq![plain("Pattern match is not exhaustive"@)],
            labels: seq![
                LabelView {
                    span,
                    text: seq![
                        plain("Pattern "@),
                        red(example_text(nm.texts, example)),
                        plain(" not covered"@),
                    ],
                    color: Color::Red,
                },
            ],
            notes: seq![
                seq![
                    plain("Add another arm like "@),
                    blue("| "@ + example_text(nm.texts, example) + " => ..."@),
                    plain(" to ensure that this case is covered."@),
                ],
            ],
        },
        Error::WrongNumberOfGenerics(a, a_count, b, b_count) => DiagnosticView {
            message: seq![plain("Wrong number of type parameters"@)],
            labels: seq![
                note_at(
                    a,
                    "Provided with "@ + decimal(a_count as nat) + " parameters"@,
                    Color::Red,
                ),
                note_at(b, "Has "@ + decimal(b_count as nat) + " parameter(s)"@, Color::Yellow),
            ],
            notes: Seq::empty(),
        },
        Error::DefTypeNotSpecified(def, usage, name) => DiagnosticView {
            message: seq![
                plain("Type of "@),
                red(name_text(nm.texts, name)),
                plain(" must be fully specified"@),
            ],
            labels: seq![
                note_at(def, "Definition does not have a fully specified type hint"@, Color::Red),
                note_at(usage, "Type must be fully known here"@, Color::Yellow),
            ],
            notes: seq![
                seq![
                    plain("Add a type hint to the def like "@),
                    blue("def "@ + name_text(nm.texts, name) + " : ..."@),
                ],
            ],
        },
    }
}

/// The place where the alias `alias` is declared.
pub open spec fn alias_span(aliases: Seq<Alias>, alias: AliasId) -> Span {
    if alias.0 < aliases.len() {
        aliases[alias.0 as int].span
    } else {
        nowhere()
    }
}

/// The name of the alias `alias`.
pub open spec fn alias_name(aliases: Seq<Alias>, nm: Naming, alias: AliasId) -> Seq<char> {
    if alias.0 < aliases.len() {
        name_text(nm.texts, aliases[alias.0 as int].name)
    } else {
        "?"@
    }
}

/// The type that the alias `alias` stands for, with the alias's name where the type
/// `hole` stands in for a mention of the alias.
pub open spec fn alias_target(
    aliases: Seq<Alias>,
    tys: Seq<TyView>,
    nm: Naming,
    alias: AliasId,
    hole: TyId,
) -> Seq<char> {
    if alias.0 < aliases.len() && aliases[alias.0 as int].ty is Some {
        ty_text(
            tys,
            nm,
            Some((hole, alias_name(aliases, nm, alias))),
            aliases[alias.0 as int].ty.unwrap(),
        )
    } else {
        "?"@
    }
}

/// A run of unmarked text.
fn plain_piece(s: &str) -> (p: Piece)
    ensures
        p@ == plain(s@),
{
    Piece { text: String::from_str(s), color: None }
}

/// A run of text marked with `color`.
fn tint(s: String, color: Color) -> (p: Piece)
    ensures
        p@ == (PieceView { text: s@, color: Some(color) }),
{
    Piece { text: s, color: Some(color) }
}

/// The pieces `a`, in a vector.
fn text1(a: Piece) -> (v: Vec<Piece>)
    ensures
        pieces_view(v@) == seq![a@],
{
    let mut v: Vec<Piece> = Vec::new();
    v.push(a);
    assert(pieces_view(v@) =~= seq![a@]);
    v
}

/// The pieces `a`, `b`, in a vector.
fn text2(a: Piece, b: Piece) -> (v: Vec<Piece>)
    ensures
        pieces_view(v@) == seq![a@, b@],
{
    let mut v: Vec<Piece> = Vec::new();
    v.push(a);
    v.push(b);
    assert(pieces_view(v@) =~= seq![a@, b@]);
    v
}

/// The pieces `a`, `b`, `c`, in a vector.
fn text3(a: Piece, b: Piece, c: Piece) -> (v: Vec<Piece>)
    ensures
        pieces_view(v@) == seq![a@, b@, c@],
{
    let mut v: Vec<Piece> = Vec::new();
    v.push(a);
    v.push(b);
    v.push(c);
    assert(pieces_view(v@) =~= seq![a@, b@, c@]);
    v
}

/// The vector `v` with the piece `a` after it.
fn and1(v: Vec<Piece>, a: Piece) -> (r: Vec<Piece>)
    ensures
        pieces_view(r@) == pieces_view(v@) + seq![a@],
{
    let mut r = v;
    r.push(a);
    assert(pieces_view(r@) =~= pieces_view(v@) + seq![a@]);
    r
}

/// The vector `v` with the pieces `a`, `b` after it.
fn and2(v: Vec<Piece>, a: Piece, b: Piece) -> (r: Vec<Piece>)
    ensures
        pieces_view(r@) == pieces_view(v@) + seq![a@, b@],
{
    let mut r = v;
    r.push(a);
    r.push(b);
    assert(pieces_view(r@) =~= pieces_view(v@) + seq![a@, b@]);
    r
}

/// A label of unmarked text.
fn label_str(span: Span, s: &str, color: Color) -> (l: Label)
    ensures
        l@ == note_at(span, s@, color),
{
    Label { span, text: text1(plain_piece(s)), color }
}

/// A label of unmarked text.
fn label_string(span: Span, s: String, color: Color) -> (l: Label)
    ensures
        l@ == note_at(span, s@, color),
{
    Label { span, text: text1(Piece { text: s, color: None }), color }
}

/// A red label whose text names `what` in red between `before` and `after`.
fn label_about(span: Span, before: &str, what: String, after: &str) -> (l: Label)
    ensures
        l@ == (LabelView {
            span,
            text: seq![plain(before@), red(what@), plain(after@)],
            color: Color::Red,
        }),
{
    Label {
        span,
        text: text3(plain_piece(before), tint(what, Color::Red), plain_piece(after)),
        color: Color::Red,
    }
}

/// The label `a`, in a vector.
fn labels1(a: Label) -> (v: Vec<Label>)
    ensures
        labels_view(v@) == seq![a@],
{
    let mut v: Vec<Label> = Vec::new();
    v.push(a);
    assert(labels_view(v@) =~= seq![a@]);
    v
}

/// The labels `a`, `b`, in a vector.
fn labels2(a: Label, b: Label) -> (v: Vec<Label>)
    ensures
        labels_view(v@) == seq![a@, b@],
{
    let mut v: Vec<Label> = Vec::new();
    v.push(a);
    v.push(b);
    assert(labels_view(v@) =~= seq![a@, b@]);
    v
}

/// The labels `a`, `b`, `c`, in a vector.
fn labels3(a: Label, b: Label, c: Label) -> (v: Vec<Label>)
    ensures
        labels_view(v@) == seq![a@, b@, c@],
{
    let mut v: Vec<Label> = Vec::new();
    v.push(a);
    v.push(b);
    v.push(c);
    assert(labels_view(v@) =~= seq![a@, b@, c@]);
    v
}

/// No notes.
fn no_notes() -> (v: Vec<Vec<Piece>>)
    ensures
        notes_view(v@) == Seq::<Seq<PieceView>>::empty(),
{
    let v: Vec<Vec<Piece>> = Vec::new();
    assert(notes_view(v@) =~= Seq::<Seq<PieceView>>::empty());
    v
}

/// The one note `n`.
fn one_note(n: Vec<Piece>) -> (v: Vec<Vec<Piece>>)
    ensures
        notes_view(v@) == seq![pieces_view(n@)],
{
    let mut v: Vec<Vec<Piece>> = Vec::new();
    v.push(n);
    assert(notes_view(v@) =~= seq![pieces_view(n@)]);
    v
}

/// The texts `a`, `b`, `c` one after the other.
fn join3(a: &str, b: &str, c: &str) -> (s: String)
    ensures
        s@ == a@ + b@ + c@,
{
    let mut s = String::from_str(a);
    s.append(b);
    s.append(c);
    s
}

/// The number `n` between `before` and `after`.
fn counted(before: &str, n: usize, after: &str) -> (s: String)
    ensures
        s@ == before@ + decimal(n as nat) + after@,
{
    let digits = decimal_string(n as u64);
    join3(before, digits.as_str(), after)
}

/// The two labels of a name declared twice.
fn duplicate(old: Span, new: Span, what: &str) -> (v: Vec<Label>)
    ensures
        labels_view(v@) == duplicate_labels(old, new, what@),
{
    let mut previous = String::from_str("Previous ");
    previous.append(what);
    let mut conflicting = String::from_str("Conflicting ");
    conflicting.append(what);
    labels2(
        label_string(old, previous, Color::Yellow),
        label_string(new, conflicting, Color::Red),
    )
}

/// The message that the `kind` named `name` is declared more than once.
fn declared_twice(kind: &str, name: String) -> (v: Vec<Piece>)
    ensures
        pieces_view(v@) == seq![plain(kind@), red(name@), plain(" declared multiple times"@)],
{
    text3(plain_piece(kind), tint(name, Color::Red), plain_piece(" declared multiple times"))
}

/// The place in the source that introduced the type `id`.
fn span_of(types: &Types, id: TyId) -> (span: Span)
    ensures
        span == ty_span(types.spans(), id),
{
    match types.try_span(id) {
        Some(span) => span,
        None => Span { src: SrcId(0), start: 0, end: 0 },
    }
}

/// Whether the type `id` is a generic parameter.
fn gen_check(types: &Types, id: TyId) -> (r: bool)
    ensures
        r == is_gen(types@, id),
{
    if id.0 < types.len() {
        match types.get(id) {
            Ty::Gen(_, _) => true,
            _ => false,
        }
    } else {
        false
    }
}

/// The notes for an operator: the constraint `wanted` to add, if an operand is a
/// generic parameter, which `generic` says.
fn constraint_notes(generic: bool, wanted: String) -> (v: Vec<Vec<Piece>>)
    ensures
        notes_view(v@) == (if generic {
            seq![constraint_note(wanted@)]
        } else {
            Seq::<Seq<PieceView>>::empty()
        }),
{
    if generic {
        one_note(
            text2(
                plain_piece("Consider adding a typeclass constraint like "),
                tint(wanted, Color::Blue),
            ),
        )
    } else {
        no_notes()
    }
}

/// The words for two types that must be equal and are not.
fn mismatch(
    types: &Types,
    datas: &Datas,
    names: &Names,
    a: TyId,
    b: TyId,
    loc: Option<Span>,
) -> (d: Diagnostic)
    ensures
        d@ == diagnostic_of(
            Error::Mismatch(a, b, loc),
            types@,
            types.spans(),
            naming(datas, names),
            datas.aliases(),
        ),
        d@.labels.len() > 0,
{
    let message = and2(
        text2(
            plain_piece("Type mismatch between "),
            tint(display(types, datas, names, a), Color::Red),
        ),
        plain_piece(" and "),
        tint(display(types, datas, names, b), Color::Red),
    );
    let first = label_string(span_of(types, a), display(types, datas, names, a), Color::Red);
    let second = label_string(span_of(types, b), display(types, datas, names, b), Color::Red);
    let labels = match loc {
        Some(l) => labels3(first, second, label_str(l, "Types must be equal here", Color::Yellow)),
        None => labels2(first, second),
    };
    let d = Diagnostic { message, labels, notes: no_notes() };
    assert(d@.message =~= diagnostic_of(
            Error::Mismatch(a, b, loc),
            types@,
            types.spans(),
            naming(datas, names),
            datas.aliases(),
        ).message);
    d
}

/// The words for a type that could not be determined.
fn cannot_infer(
    types: &Types,
    datas: &Datas,
    names: &Names,
    a: TyId,
    origin: Option<Span>,
) -> (d: Diagnostic)
    ensures
        d@ == diagnostic_of(
            Error::CannotInfer(a, origin),
            types@,
            types.spans(),
            naming(datas, names),
            datas.aliases(),
        ),
        d@.labels.len() > 0,
{
    let message = text2(
        plain_piece("Cannot infer type "),
        tint(display(types, datas, names, a), Color::Red),
    );
    let labels = match origin {
        Some(o) => labels2(
            label_str(span_of(types, a), "Use of generic definition", Color::Red),
            label_str(o, "Instantiation of this generic type", Color::Red),
        ),
        None => labels1(
            label_string(span_of(types, a), display(types, datas, names, a), Color::Red),
        ),
    };
    Diagnostic { message, labels, notes: no_notes() }
}

/// The words for a type that contains itself.
fn recursive(
    types: &Types,
    datas: &Datas,
    names: &Names,
    a: TyId,
    span: Span,
    part: Span,
) -> (d: Diagnostic)
    ensures
        d@ == diagnostic_of(
            Error::Recursive(a, span, part),
            types@,
            types.spans(),
            naming(datas, names),
            datas.aliases(),
        ),
        d@.labels.len() > 0,
{
    Diagnostic {
        message: text2(
            plain_piece("Recursive type "),
            tint(display(types, datas, names, a), Color::Red),
        ),
        labels: labels2(
            label_str(span, "Mentions itself", Color::Red),
            label_str(part, "Recursive element is here", Color::Red),
        ),
        notes: no_notes(),
    }
}

/// The words for a field that a type does not have.
fn no_such_field(
    types: &Types,
    datas: &Datas,
    names: &Names,
    a: TyId,
    field: SrcNode<Ident>,
) -> (d: Diagnostic)
    ensures
        d@ == diagnostic_of(
            Error::NoSuchField(a, field),
            types@,
            types.spans(),
            naming(datas, names),
            datas.aliases(),
        ),
        d@.labels.len() > 0,
{
    let message = and2(
        text2(plain_piece("No such field "), tint(names.text(field.inner), Color::Red)),
        plain_piece(" on "),
        tint(display(types, datas, names, a), Color::Red),
    );
    let d = Diagnostic {
        message,
        labels: labels2(
            label_string(span_of(types, a), display(types, datas, names, a), Color::Red),
            label_str(field.span, "Field", Color::Red),
        ),
        notes: no_notes(),
    };
    assert(d@.message =~= diagnostic_of(
            Error::NoSuchField(a, field),
            types@,
            types.spans(),
            naming(datas, names),
            datas.aliases(),
        ).message);
    d
}

/// The words for a name that is not in scope.
fn no_such_local(
    types: &Types,
    datas: &Datas,
    names: &Names,
    local: SrcNode<Ident>,
) -> (d: Diagnostic)
    ensures
        d@ == diagnostic_of(
            Error::NoSuchLocal(local),
            types@,
            types.spans(),
            naming(datas, names),
            datas.aliases(),
        ),
        d@.labels.len() > 0,
{
    Diagnostic {
        message: text2(plain_piece("No such local "), tint(names.text(local.inner), Color::Red)),
        labels: labels1(label_str(local.span, "Scope does not contain this", Color::Red)),
        notes: no_notes(),
    }
}

/// The words for arms with different numbers of parameters.
fn wrong_number_of_params(
    types: &Types,
    datas: &Datas,
    names: &Names,
    a: Span,
    a_count: usize,
    b: Span,
    b_count: usize,
) -> (d: Diagnostic)
    ensures
        d@ == diagnostic_of(
            Error::WrongNumberOfParams(a, a_count, b, b_count),
            types@,
            types.spans(),
            naming(datas, names),
            datas.aliases(),
        ),
        d@.labels.len() > 0,
{
    Diagnostic {
        message: text1(plain_piece("Pattern arms must all have the same number of parameters")),
        labels: labels2(
            label_string(a, counted("Has ", a_count, " parameter(s)"), Color::Red),
            label_string(b, counted("Has ", b_count, " parameter(s)"), Color::Red),
        ),
        notes: no_notes(),
    }
}

/// The words for a match without arms.
fn no_branches(
    types: &Types,
    datas: &Datas,
    names: &Names,
    span: Span,
) -> (d: Diagnostic)
    ensures
        d@ == diagnostic_of(
            Error::NoBranches(span),
            types@,
            types.spans(),
            naming(datas, names),
            datas.aliases(),
        ),
        d@.labels.len() > 0,
{
    Diagnostic {
        message: text1(plain_piece("Pattern match must have at least one branch")),
        labels: labels1(label_str(span, "Must have a branch", Color::Red)),
        notes: no_notes(),
    }
}

/// The words for a unary operator applied to a type it is not defined on.
fn invalid_unary_op(
    types: &Types,
    datas: &Datas,
    names: &Names,
    op: SrcNode<UnaryOp>,
    a: TyId,
    a_span: Span,
) -> (d: Diagnostic)
    ensures
        d@ == diagnostic_of(
            Error::InvalidUnaryOp(op, a, a_span),
            types@,
            types.spans(),
            naming(datas, names),
            datas.aliases(),
        ),
        d@.labels.len() > 0,
{
    let message = and2(
        text2(plain_piece("Cannot apply "), tint(String::from_str(op.inner.sign()), Color::Red)),
        plain_piece(" to "),
        tint(display(types, datas, names, a), Color::Red),
    );
    let generic = gen_check(types, a);
    let mut wanted = display(types, datas, names, a);
    wanted.append(" < ");
    wanted.append(op.inner.name());
    let d = Diagnostic {
        message,
        labels: labels1(
            label_about(
                op.span.union(a_span),
                "Operation ",
                String::from_str(op.inner.sign()),
                " applied here",
            ),
        ),
        notes: constraint_notes(generic, wanted),
    };
    assert(d@.message =~= diagnostic_of(
            Error::InvalidUnaryOp(op, a, a_span),
            types@,
            types.spans(),
            naming(datas, names),
            datas.aliases(),
        ).message);
    d
}

/// The words for a binary operator applied to types it is not defined on.
fn invalid_binary_op(
    types: &Types,
    datas: &Datas,
    names: &Names,
    op: SrcNode<BinaryOp>,
    a: TyId,
    a_span: Span,
    b: TyId,
    b_span: Span,
) -> (d: Diagnostic)
    ensures
        d@ == diagnostic_of(
            Error::InvalidBinaryOp(op, a, a_span, b, b_span),
            types@,
            types.spans(),
            naming(datas, names),
            datas.aliases(),
        ),
        d@.labels.len() > 0,
{
    let message = and2(
        and2(
            text2(
                plain_piece("Invalid operation "),
                tint(display(types, datas, names, a), Color::Red),
            ),
            plain_piece(" "),
            tint(String::from_str(op.inner.sign()), Color::Red),
        ),
        plain_piece(" "),
        tint(display(types, datas, names, b), Color::Red),
    );
    let generic = gen_check(types, a) || gen_check(types, b);
    let mut wanted = display(types, datas, names, a);
    wanted.append(" < ");
    wanted.append(op.inner.name());
    wanted.append(" ");
    let right = display(types, datas, names, b);
    wanted.append(right.as_str());
    let d = Diagnostic {
        message,
        labels: labels1(
            label_about(
                a_span.union(op.span).union(b_span),
                "Operation ",
                String::from_str(op.inner.sign()),
                " applied here",
            ),
        ),
        notes: constraint_notes(generic, wanted),
    };
    assert(d@.message =~= diagnostic_of(
            Error::InvalidBinaryOp(op, a, a_span, b, b_span),
            types@,
            types.spans(),
            naming(datas, names),
            datas.aliases(),
        ).message);
    d
}

/// The words for a type that is not declared.
fn no_such_data(
    types: &Types,
    datas: &Datas,
    names: &Names,
    a: SrcNode<Ident>,
) -> (d: Diagnostic)
    ensures
        d@ == diagnostic_of(
            Error::NoSuchData(a),
            types@,
            types.spans(),
            naming(datas, names),
            datas.aliases(),
        ),
        d@.labels.len() > 0,
{
    Diagnostic {
        message: text2(plain_piece("No such type "), tint(names.text(a.inner), Color::Red)),
        labels: labels1(label_str(a.span, "Does not exist", Color::Red)),
        notes: no_notes(),
    }
}

/// The words for a constructor that is not declared.
fn no_such_cons(
    types: &Types,
    datas: &Datas,
    names: &Names,
    a: SrcNode<Ident>,
) -> (d: Diagnostic)
    ensures
        d@ == diagnostic_of(
            Error::NoSuchCons(a),
            types@,
            types.spans(),
            naming(datas, names),
            datas.aliases(),
        ),
        d@.labels.len() > 0,
{
    Diagnostic {
        message: text2(plain_piece("No such constructor "), tint(names.text(a.inner), Color::Red)),
        labels: labels1(label_str(a.span, "Does not exist", Color::Red)),
        notes: no_notes(),
    }
}

/// The words for an alias that mentions itself.
fn recursive_alias(
    types: &Types,
    datas: &Datas,
    names: &Names,
    alias: AliasId,
    ty: TyId,
    span: Span,
) -> (d: Diagnostic)
    ensures
        d@ == diagnostic_of(
            Error::RecursiveAlias(alias, ty, span),
            types@,
            types.spans(),
            naming(datas, names),
            datas.aliases(),
        ),
        d@.labels.len() > 0,
{
    let known = alias.0 < datas.alias_count();
    let declared = if known {
        datas.get_alias_span(alias)
    } else {
        Span { src: SrcId(0), start: 0, end: 0 }
    };
    let name = if known {
        names.text(datas.get_alias(alias).name)
    } else {
        String::from_str("?")
    };
    let mut wanted = String::from_str("data ");
    wanted.append(name.as_str());
    wanted.append(" = ");
    let target = if known {
        match datas.get_alias(alias).ty {
            Some(t) => {
                let hole = Some((ty, name));
                display_with(types, datas, names, &hole, t)
            },
            None => String::from_str("?"),
        }
    } else {
        String::from_str("?")
    };
    wanted.append(target.as_str());
    Diagnostic {
        message: text1(plain_piece("Recursive type alias")),
        labels: labels2(
            label_str(
                declared,
                "Alias mentions itself, leading to an infinite expansion",
                Color::Red,
            ),
            label_str(span, "Recursion occurs here", Color::Yellow),
        ),
        notes: one_note(
            text3(
                plain_piece("Type aliases expand eagerly. Consider using a data type like "),
                tint(wanted, Color::Blue),
                plain_piece(" instead."),
            ),
        ),
    }
}

/// The words for a type declared twice.
fn duplicate_type_name(
    types: &Types,
    datas: &Datas,
    names: &Names,
    name: Ident,
    old: Span,
    new: Span,
) -> (d: Diagnostic)
    ensures
        d@ == diagnostic_of(
            Error::DuplicateTypeName(name, old, new),
            types@,
            types.spans(),
            naming(datas, names),
            datas.aliases(),
        ),
        d@.labels.len() > 0,
{
    Diagnostic {
        message: declared_twice("Type ", names.text(name)),
        labels: duplicate(old, new, "declaration"),
        notes: no_notes(),
    }
}

/// The words for a definition declared twice.
fn duplicate_def_name(
    types: &Types,
    datas: &Datas,
    names: &Names,
    name: Ident,
    old: Span,
    new: Span,
) -> (d: Diagnostic)
    ensures
        d@ == diagnostic_of(
            Error::DuplicateDefName(name, old, new),
            types@,
            types.spans(),
            naming(datas, names),
            datas.aliases(),
        ),
        d@.labels.len() > 0,
{
    Diagnostic {
        message: declared_twice("Definition ", names.text(name)),
        labels: duplicate(old, new, "declaration"),
        notes: no_notes(),
    }
}

/// The words for a constructor declared twice.
fn duplicate_cons_name(
    types: &Types,
    datas: &Datas,
    names: &Names,
    name: Ident,
    old: Span,
    new: Span,
) -> (d: Diagnostic)
    ensures
        d@ == diagnostic_of(
            Error::DuplicateConsName(name, old, new),
            types@,
            types.spans(),
            naming(datas, names),
            datas.aliases(),
        ),
        d@.labels.len() > 0,
{
    Diagnostic {
        message: declared_twice("Constructor ", names.text(name)),
        labels: duplicate(old, new, "declaration"),
        notes: no_notes(),
    }
}

/// The words for a type parameter declared twice.
fn duplicate_gen_name(
    types: &Types,
    datas: &Datas,
    names: &Names,
    name: Ident,
    old: Span,
    new: Span,
) -> (d: Diagnostic)
    ensures
        d@ == diagnostic_of(
            Error::DuplicateGenName(name, old, new),
            types@,
            types.spans(),
            naming(datas, names),
            datas.aliases(),
        ),
        d@.labels.len() > 0,
{
    Diagnostic {
        message: declared_twice("Type parameter ", names.text(name)),
        labels: duplicate(old, new, "type parameter"),
        notes: no_notes(),
    }
}

/// The words for an arithmetic pattern that is not supported.
fn pattern_not_supported(
    types: &Types,
    datas: &Datas,
    names: &Names,
    lhs: TyId,
    op: SrcNode<BinaryOp>,
    rhs: TyId,
    span: Span,
) -> (d: Diagnostic)
    ensures
        d@ == diagnostic_of(
            Error::PatternNotSupported(lhs, op, rhs, span),
            types@,
            types.spans(),
            naming(datas, names),
            datas.aliases(),
        ),
        d@.labels.len() > 0,
{
    let message = and1(
        and2(
            and2(
                text2(
                    plain_piece("Arithmetic pattern "),
                    tint(display(types, datas, names, lhs), Color::Red),
                ),
                plain_piece(" "),
                tint(String::from_str(op.inner.sign()), Color::Red),
            ),
            plain_piece(" "),
            tint(display(types, datas, names, rhs), Color::Red),
        ),
        plain_piece(" is not supported"),
    );
    let d = Diagnostic {
        message,
        labels: labels1(
            label_about(span, "Pattern ", String::from_str(op.inner.sign()), " used here"),
        ),
        notes: one_note(
            text3(
                plain_piece("Only specific arithmetic patterns, such as "),
                tint(String::from_str("Nat + Nat"), Color::Blue),
                plain_piece(", are supported"),
            ),
        ),
    };
    assert(d@.message =~= diagnostic_of(
            Error::PatternNotSupported(lhs, op, rhs, span),
            types@,
            types.spans(),
            naming(datas, names),
            datas.aliases(),
        ).message);
    d
}

/// The words for a type given the wrong number of arguments.
fn wrong_number_of_generics(
    types: &Types,
    datas: &Datas,
    names: &Names,
    a: Span,
    a_count: usize,
    b: Span,
    b_count: usize,
) -> (d: Diagnostic)
    ensures
        d@ == diagnostic_of(
            Error::WrongNumberOfGenerics(a, a_count, b, b_count),
            types@,
            types.spans(),
            naming(datas, names),
            datas.aliases(),
        ),
        d@.labels.len() > 0,
{
    Diagnostic {
        message: text1(plain_piece("Wrong number of type parameters")),
        labels: labels2(
            label_string(a, counted("Provided with ", a_count, " parameters"), Color::Red),
            label_string(b, counted("Has ", b_count, " parameter(s)"), Color::Yellow),
        ),
        notes: no_notes(),
    }
}

/// The words for a definition whose type is not fully known.
fn def_type_not_specified(
    types: &Types,
    datas: &Datas,
    names: &Names,
    def: Span,
    usage: Span,
    name: Ident,
) -> (d: Diagnostic)
    ensures
        d@ == diagnostic_of(
            Error::DefTypeNotSpecified(def, usage, name),
            types@,
            types.spans(),
            naming(datas, names),
            datas.aliases(),
        ),
        d@.labels.len() > 0,
{
    let mut wanted = String::from_str("def ");
    let text = names.text(name);
    wanted.append(text.as_str());
    wanted.append(" : ...");
    Diagnostic {
        message: text3(
            plain_piece("Type of "),
            tint(names.text(name), Color::Red),
            plain_piece(" must be fully specified"),
        ),
        labels: labels2(
            label_str(def, "Definition does not have a fully specified type hint", Color::Red),
            label_str(usage, "Type must be fully known here", Color::Yellow),
        ),
        notes: one_note(
            text2(plain_piece("Add a type hint to the def like "), tint(wanted, Color::Blue)),
        ),
    }
}

/// The words for a match that leaves a case out.
fn not_exhaustive(
    types: &Types,
    datas: &Datas,
    names: &Names,
    span: Span,
    example: &ExamplePat,
) -> (d: Diagnostic)
    ensures
        d@.message == seq![plain("Pattern match is not exhaustive"@)],
        d@.labels == seq![
            LabelView {
                span,
                text: seq![
                    plain("Pattern "@),
                    red(example_text(naming(datas, names).texts, *example)),
                    plain(" not covered"@),
                ],
                color: Color::Red,
            },
        ],
        d@.notes == seq![
            seq![
                plain("Add another arm like "@),
                blue("| "@ + example_text(naming(datas, names).texts, *example) + " => ..."@),
                plain(" to ensure that this case is covered."@),
            ],
        ],
{
    let shown = example.text(names);
    let mut wanted = String::from_str("| ");
    wanted.append(shown.as_str());
    wanted.append(" => ...");
    Diagnostic {
        message: text1(plain_piece("Pattern match is not exhaustive")),
        labels: labels1(label_about(span, "Pattern ", shown, " not covered")),
        notes: one_note(
            text3(
                plain_piece("Add another arm like "),
                tint(wanted, Color::Blue),
                plain_piece(" to ensure that this case is covered."),
            ),
        ),
    }
}

impl Error {
    /// Puts the error into words: the message, the places it concerns, the main one
    /// first, and the notes on what to do about it.
    pub fn diagnostic(&self, types: &Types, datas: &Datas, names: &Names) -> (d: Diagnostic)
        ensures
            d@ == diagnostic_of(
                *self,
                types@,
                types.spans(),
                naming(datas, names),
                datas.aliases(),
            ),
            d@.labels.len() > 0,
    {
        match self {
            Error::Mismatch(a, b, loc) => mismatch(types, datas, names, *a, *b, *loc),
            Error::CannotInfer(a, origin) => cannot_infer(types, datas, names, *a, *origin),
            Error::Recursive(a, span, part) => recursive(types, datas, names, *a, *span, *part),
            Error::NoSuchField(a, field) => no_such_field(types, datas, names, *a, *field),
            Error::NoSuchLocal(local) => no_such_local(types, datas, names, *local),
            Error::WrongNumberOfParams(a, a_count, b, b_count) => wrong_number_of_params(types, datas, names, *a, *a_count, *b, *b_count),
            Error::NoBranches(span) => no_branches(types, datas, names, *span),
            Error::InvalidUnaryOp(op, a, a_span) => invalid_unary_op(types, datas, names, *op, *a, *a_span),
            Error::InvalidBinaryOp(op, a, a_span, b, b_span) => invalid_binary_op(types, datas, names, *op, *a, *a_span, *b, *b_span),
            Error::NoSuchData(a) => no_such_data(types, datas, names, *a),
            Error::NoSuchCons(a) => no_such_cons(types, datas, names, *a),
            Error::RecursiveAlias(alias, ty, span) => recursive_alias(types, datas, names, *alias, *ty, *span),
            Error::DuplicateTypeName(name, old, new) => duplicate_type_name(types, datas, names, *name, *old, *new),
            Error::DuplicateDefName(name, old, new) => duplicate_def_name(types, datas, names, *name, *old, *new),
            Error::DuplicateConsName(name, old, new) => duplicate_cons_name(types, datas, names, *name, *old, *new),
            Error::DuplicateGenName(name, old, new) => duplicate_gen_name(types, datas, names, *name, *old, *new),
            Error::PatternNotSupported(lhs, op, rhs, span) => pattern_not_supported(types, datas, names, *lhs, *op, *rhs, *span),
            Error::NotExhaustive(span, example) => not_exhaustive(types, datas, names, *span, example),
            Error::WrongNumberOfGenerics(a, a_count, b, b_count) => wrong_number_of_generics(types, datas, names, *a, *a_count, *b, *b_count),
            Error::DefTypeNotSpecified(def, usage, name) => def_type_not_specified(types, datas, names, *def, *usage, *name),
        }
    }
}

} // verus!
