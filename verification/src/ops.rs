//! The built-in operators: for each operator, the types it is defined on and the
//! type of its result.

use crate::hir::{BinaryOp, Literal, UnaryOp};
use crate::ty::Prim;
use vstd::prelude::*;

verus! {

/// The type of a literal.
pub open spec fn literal_prim(l: Literal) -> Prim {
    match l {
        Literal::Bool(_) => Prim::Bool,
        Literal::Nat(_) => Prim::Nat,
        Literal::Int(_) => Prim::Int,
        Literal::Char(_) => Prim::Char,
    }
}

/// The type of the result of the unary operator `op` on an operand of the primitive
/// type `p`, where the operator is defined on it.
///
/// Negation gives an integer for a natural number or an integer, and a real for a
/// real. The logical not is defined on booleans.
pub open spec fn unary_result(op: UnaryOp, p: Prim) -> Option<Prim> {
    match (op, p) {
        (UnaryOp::Neg, Prim::Nat) => Some(Prim::Int),
        (UnaryOp::Neg, Prim::Int) => Some(Prim::Int),
        (UnaryOp::Neg, Prim::Real) => Some(Prim::Real),
        (UnaryOp::Not, Prim::Bool) => Some(Prim::Bool),
        _ => None,
    }
}

/// Whether `p` is a type of numbers.
pub open spec fn is_number(p: Prim) -> bool {
    p == Prim::Nat || p == Prim::Int || p == Prim::Real
}

/// The type of the result of the binary operator `op` on two operands of the
/// primitive type `p`, where the operator is defined on them.
///
/// Arithmetic is defined on numbers and gives a number of the same type. Values of
/// every primitive type can be compared for equality; numbers and characters can be
/// ordered. The logical operators are defined on booleans.
pub open spec fn binary_result(op: BinaryOp, p: Prim) -> Option<Prim> {
    match op {
        BinaryOp::Add | BinaryOp::Sub | BinaryOp::Mul | BinaryOp::Div | BinaryOp::Rem => if is_number(
            p,
        ) {
            Some(p)
        } else {
            None
        },
        BinaryOp::Eq | BinaryOp::NotEq => Some(Prim::Bool),
        BinaryOp::Less | BinaryOp::LessEq | BinaryOp::More | BinaryOp::MoreEq => if is_number(p)
            || p == Prim::Char {
            Some(Prim::Bool)
        } else {
            None
        },
        BinaryOp::And | BinaryOp::Or => if p == Prim::Bool {
            Some(Prim::Bool)
        } else {
            None
        },
        BinaryOp::Join => None,
    }
}

/// The type of a literal.
pub fn prim_of_literal(l: Literal) -> (p: Prim)
    ensures
        p == literal_prim(l),
{
    match l {
        Literal::Bool(_) => Prim::Bool,
        Literal::Nat(_) => Prim::Nat,
        Literal::Int(_) => Prim::Int,
        Literal::Char(_) => Prim::Char,
    }
}

/// The type of the result of `op` on an operand of the type `p`, if `op` is defined
/// on it.
pub fn unary_table(op: UnaryOp, p: Prim) -> (r: Option<Prim>)
    ensures
        r == unary_result(op, p),
{
    match op {
        UnaryOp::Neg => match p {
            Prim::Nat => Some(Prim::Int),
            Prim::Int => Some(Prim::Int),
            Prim::Real => Some(Prim::Real),
            _ => None,
        },
        UnaryOp::Not => match p {
            Prim::Bool => Some(Prim::Bool),
            _ => None,
        },
    }
}

/// The type of the result of `op` on two operands of the type `p`, if `op` is defined
/// on them.
pub fn binary_table(op: BinaryOp, p: Prim) -> (r: Option<Prim>)
    ensures
        r == binary_result(op, p),
{
    let number = match p {
        Prim::Nat => true,
        Prim::Int => true,
        Prim::Real => true,
        _ => false,
    };
    match op {
        BinaryOp::Add | BinaryOp::Sub | BinaryOp::Mul | BinaryOp::Div | BinaryOp::Rem => if number {
            Some(p)
        } else {
            None
        },
        BinaryOp::Eq | BinaryOp::NotEq => Some(Prim::Bool),
        BinaryOp::Less | BinaryOp::LessEq | BinaryOp::More | BinaryOp::MoreEq => {
            let ordered = number || match p {
                Prim::Char => true,
                _ => false,
            };
            if ordered {
                Some(Prim::Bool)
            } else {
                None
            }
        },
        BinaryOp::And | BinaryOp::Or => match p {
            Prim::Bool => Some(Prim::Bool),
            _ => None,
        },
        BinaryOp::Join => None,
    }
}

} // verus!
