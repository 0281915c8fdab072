use tao_analysis::example::ExamplePat;
use tao_analysis::span::Ident;
use tao_analysis::text::{decimal_string, signed_decimal_string, Names};

#[test]
fn numbers_are_written_in_decimal() {
    assert_eq!(decimal_string(0), "0");
    assert_eq!(decimal_string(7), "7");
    assert_eq!(decimal_string(10), "10");
    assert_eq!(decimal_string(1234567890), "1234567890");
    assert_eq!(decimal_string(u64::MAX), "18446744073709551615");
}

#[test]
fn integers_are_written_with_their_sign() {
    assert_eq!(signed_decimal_string(0), "0");
    assert_eq!(signed_decimal_string(42), "42");
    assert_eq!(signed_decimal_string(-1), "-1");
    assert_eq!(signed_decimal_string(i64::MAX), "9223372036854775807");
    assert_eq!(signed_decimal_string(i64::MIN), "-9223372036854775808");
}

#[test]
fn names_are_interned_once() {
    let mut names = Names::new();
    let a = names.intern("alpha");
    let b = names.intern("beta");
    assert_eq!(a, Ident(0));
    assert_eq!(b, Ident(1));
    assert_eq!(names.intern("alpha"), a);
    assert_eq!(names.len(), 2);
    assert_eq!(names.text(a), "alpha");
    assert_eq!(names.text(b), "beta");
    assert_eq!(names.text(Ident(2)), "?");
}

#[test]
fn examples_are_written_out() {
    let mut names = Names::new();
    let just = names.intern("Just");
    let none = names.intern("None");
    assert_eq!(ExamplePat::Wildcard.text(&names), "_");
    assert_eq!(ExamplePat::Bool(true).text(&names), "True");
    assert_eq!(ExamplePat::Bool(false).text(&names), "False");
    assert_eq!(ExamplePat::Nat(305).text(&names), "305");
    assert_eq!(ExamplePat::Int(-12).text(&names), "-12");
    assert_eq!(ExamplePat::Char('x').text(&names), "'x'");
    assert_eq!(ExamplePat::Tuple(vec![]).text(&names), "()");
    assert_eq!(
        ExamplePat::Tuple(vec![ExamplePat::Nat(1), ExamplePat::Wildcard]).text(&names),
        "(1, _)"
    );
    assert_eq!(ExamplePat::List(vec![]).text(&names), "[]");
    assert_eq!(
        ExamplePat::List(vec![ExamplePat::Wildcard, ExamplePat::Bool(true)]).text(&names),
        "[_, True]"
    );
    assert_eq!(ExamplePat::ListFront(vec![]).text(&names), "[..]");
    assert_eq!(ExamplePat::ListFront(vec![ExamplePat::Wildcard]).text(&names), "[_, ..]");
    assert_eq!(ExamplePat::Cons(none, vec![]).text(&names), "None");
    assert_eq!(ExamplePat::Cons(just, vec![ExamplePat::Nat(3)]).text(&names), "Just 3");
    assert_eq!(
        ExamplePat::Cons(
            just,
            vec![ExamplePat::Cons(just, vec![ExamplePat::Cons(none, vec![])]), ExamplePat::Wildcard]
        )
        .text(&names),
        "Just (Just None) _"
    );
}
