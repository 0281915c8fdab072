//! Examples of values, as they are reported for a match that leaves a case out.

use crate::span::Ident;
use crate::text::{
    char_string, decimal, decimal_string, name_text, signed_decimal, signed_decimal_string, Names,
};
use vstd::prelude::*;

verus! {

/// A pattern that stands for the values of a case.
#[derive(Debug, PartialEq, Eq)]
pub enum ExamplePat {
    /// Any value.
    Wildcard,
    Bool(bool),
    Nat(u64),
    Int(i64),
    Char(char),
    Tuple(Vec<ExamplePat>),
    /// A list of exactly these items.
    List(Vec<ExamplePat>),
    /// A list that starts with these items.
    ListFront(Vec<ExamplePat>),
    /// A constructor applied to its fields.
    Cons(Ident, Vec<ExamplePat>),
}

/// What an example is, as a mathematical value.
pub enum ExampleView {
    Wildcard,
    Bool(bool),
    Nat(u64),
    Int(i64),
    Char(char),
    Tuple(Seq<ExampleView>),
    List(Seq<ExampleView>),
    ListFront(Seq<ExampleView>),
    Cons(Ident, Seq<ExampleView>),
}

/// The values of a sequence of examples.
pub open spec fn examples_view(s: Seq<ExamplePat>) -> Seq<ExampleView>
    decreases s,
{
    Seq::new(s.len(), |i: int| if 0 <= i < s.len() { example_view(s[i]) } else { arbitrary() })
}

/// The value of an example.
pub open spec fn example_view(e: ExamplePat) -> ExampleView
    decreases e,
{
    match e {
        ExamplePat::Wildcard => ExampleView::Wildcard,
        ExamplePat::Bool(b) => ExampleView::Bool(b),
        ExamplePat::Nat(n) => ExampleView::Nat(n),
        ExamplePat::Int(n) => ExampleView::Int(n),
        ExamplePat::Char(c) => ExampleView::Char(c),
        ExamplePat::Tuple(fields) => ExampleView::Tuple(examples_view(fields@)),
        ExamplePat::List(items) => ExampleView::List(examples_view(items@)),
        ExamplePat::ListFront(items) => ExampleView::ListFront(examples_view(items@)),
        ExamplePat::Cons(name, fields) => ExampleView::Cons(name, examples_view(fields@)),
    }
}

impl View for ExamplePat {
    type V = ExampleView;

    open spec fn view(&self) -> ExampleView {
        example_view(*self)
    }
}

/// Whether an example is put in brackets where it is the field of a constructor.
pub open spec fn needs_brackets(p: ExamplePat) -> bool {
    match p {
        ExamplePat::Cons(_, fields) => fields@.len() > 0,
        _ => false,
    }
}

/// The text of an example.
///
/// Any value is written `_`, a tuple `(a, b)`, a list `[a, b]`, a constructor by its
/// name followed by its fields.
pub open spec fn example_text(texts: Seq<Seq<char>>, p: ExamplePat) -> Seq<char>
    decreases p, 0nat,
{
    match p {
        ExamplePat::Wildcard => "_"@,
        ExamplePat::Bool(b) => if b {
            "True"@
        } else {
            "False"@
        },
        ExamplePat::Nat(n) => decimal(n as nat),
        ExamplePat::Int(n) => signed_decimal(n as int),
        ExamplePat::Char(c) => "'"@ + seq![c] + "'"@,
        ExamplePat::Tuple(fields) => "("@ + examples_text(
            texts,
            fields@,
            ""@,
            ", "@,
            false,
            fields@.len(),
        ) + ")"@,
        ExamplePat::List(items) => "["@ + examples_text(
            texts,
            items@,
            ""@,
            ", "@,
            false,
            items@.len(),
        ) + "]"@,
        ExamplePat::ListFront(items) => "["@ + examples_text(
            texts,
            items@,
            ""@,
            ", "@,
            false,
            items@.len(),
        ) + (if items@.len() == 0 {
            ".."@
        } else {
            ", .."@
        }) + "]"@,
        ExamplePat::Cons(name, fields) => name_text(texts, name) + examples_text(
            texts,
            fields@,
            " "@,
            " "@,
            true,
            fields@.len(),
        ),
    }
}

/// The texts of the first `upto` examples of `ps`, the first one after `first`, each
/// other one after `sep`; where `wrap` is set, an example that needs brackets gets
/// them.
pub open spec fn examples_text(
    texts: Seq<Seq<char>>,
    ps: Seq<ExamplePat>,
    first: Seq<char>,
    sep: Seq<char>,
    wrap: bool,
    upto: nat,
) -> Seq<char>
    decreases ps, upto,
{
    if upto == 0 || upto > ps.len() {
        Seq::empty()
    } else {
        examples_text(texts, ps, first, sep, wrap, (upto - 1) as nat) + (if upto == 1 {
            first
        } else {
            sep
        }) + (if wrap && needs_brackets(ps[upto - 1]) {
            "("@ + example_text(texts, ps[upto - 1]) + ")"@
        } else {
            example_text(texts, ps[upto - 1])
        })
    }
}

/// The texts of the examples of `ps`, the first one after `first`, each other one
/// after `sep`.
fn examples_string(names: &Names, ps: &Vec<ExamplePat>, first: &str, sep: &str, wrap: bool) -> (s:
    String)
    ensures
        s@ == examples_text(names@, ps@, first@, sep@, wrap, ps@.len()),
    decreases ps, 0nat,
{
    let mut s = String::new();
    let mut k: usize = 0;
    while k < ps.len()
        invariant
            k <= ps.len(),
            s@ == examples_text(names@, ps@, first@, sep@, wrap, k as nat),
        decreases ps.len() - k,
    {
        if k == 0 {
            s.append(first);
        } else {
            s.append(sep);
        }
        let brackets = wrap && match &ps[k] {
            ExamplePat::Cons(_, fields) => fields.len() > 0,
            _ => false,
        };
        let text = ps[k].text(names);
        if brackets {
            s.append("(");
            s.append(text.as_str());
            s.append(")");
            assert(s@ =~= examples_text(names@, ps@, first@, sep@, wrap, (k + 1) as nat));
        } else {
            s.append(text.as_str());
        }
        k += 1;
    }
    s
}

impl ExamplePat {
    /// The text of the example.
    pub fn text(&self, names: &Names) -> (s: String)
        ensures
            s@ == example_text(names@, *self),
        decreases self, 1nat,
    {
        match self {
            ExamplePat::Wildcard => String::from_str("_"),
            ExamplePat::Bool(b) => if *b {
                String::from_str("True")
            } else {
                String::from_str("False")
            },
            ExamplePat::Nat(n) => decimal_string(*n),
            ExamplePat::Int(n) => signed_decimal_string(*n),
            ExamplePat::Char(c) => {
                let mut s = String::from_str("'");
                let inner = char_string(*c);
                s.append(inner.as_str());
                s.append("'");
                s
            },
            ExamplePat::Tuple(fields) => {
                let mut s = String::from_str("(");
                let inner = examples_string(names, fields, "", ", ", false);
                s.append(inner.as_str());
                s.append(")");
                s
            },
            ExamplePat::List(items) => {
                let mut s = String::from_str("[");
                let inner = examples_string(names, items, "", ", ", false);
                s.append(inner.as_str());
                s.append("]");
                s
            },
            ExamplePat::ListFront(items) => {
                let mut s = String::from_str("[");
                let inner = examples_string(names, items, "", ", ", false);
                s.append(inner.as_str());
                if items.len() == 0 {
                    s.append("..");
                } else {
                    s.append(", ..");
                }
                s.append("]");
                s
            },
            ExamplePat::Cons(name, fields) => {
                let mut s = names.text(*name);
                let inner = examples_string(names, fields, " ", " ", true);
                s.append(inner.as_str());
                s
            },
        }
    }
}

} // verus!
