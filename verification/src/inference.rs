//! Outcomes of name and type resolution, and the operator vocabulary that
//! semantic diagnostics print.
use vstd::prelude::*;
use crate::semantic::{SemanticAssignmentOperator, SemanticBinaryOperator, SemanticUnaryOperator};
use crate::type_system::ValueType;

verus! {

/// The outcome of resolving a name, a member or a type: one result, or why
/// there is none.
pub enum Resolution<T> {
    Resolved(T),
    Missing,
    Ambiguous,
    Unsupported,
}

impl<T> Resolution<T> {
    /// Applies `map` to a resolved value; the failures stay as they are.
    pub fn map<U, F: FnOnce(T) -> U>(self, map: F) -> (r: Resolution<U>)
        requires
            self matches Resolution::Resolved(v) ==> call_requires(map, (v,)),
        ensures
            match self {
                Resolution::Resolved(v) => r matches Resolution::Resolved(u) && call_ensures(map, (v,), u),
                Resolution::Missing => r is Missing,
                Resolution::Ambiguous => r is Ambiguous,
                Resolution::Unsupported => r is Unsupported,
            },
    {
        match self {
            Resolution::Resolved(value) => Resolution::Resolved(map(value)),
            Resolution::Missing => Resolution::Missing,
            Resolution::Ambiguous => Resolution::Ambiguous,
            Resolution::Unsupported => Resolution::Unsupported,
        }
    }

    /// The resolved value, if any.
    pub fn into_option(self) -> (r: Option<T>)
        ensures
            match self {
                Resolution::Resolved(v) => r == Some(v),
                _ => r is None,
            },
    {
        match self {
            Resolution::Resolved(value) => Some(value),
            Resolution::Missing => None,
            Resolution::Ambiguous => None,
            Resolution::Unsupported => None,
        }
    }
}

/// The failure that a compound expression reports when its parts failed:
/// an ambiguity wins over a missing name, which wins over an unsupported
/// construct; two resolved parts give `Unsupported`.
pub open spec fn merged_failure<A, B>(left: Resolution<A>, right: Resolution<B>) -> Resolution<
    ValueType,
> {
    if left is Ambiguous || right is Ambiguous {
        Resolution::Ambiguous
    } else if left is Missing || right is Missing {
        Resolution::Missing
    } else {
        Resolution::Unsupported
    }
}

pub fn merge_failures(left: Resolution<ValueType>, right: Resolution<ValueType>) -> (r: Resolution<
    ValueType,
>)
    ensures
        r is Ambiguous <==> (left is Ambiguous || right is Ambiguous),
        r is Missing <==> (!(left is Ambiguous || right is Ambiguous) && (left is Missing
            || right is Missing)),
        r is Unsupported <==> !(left is Ambiguous || right is Ambiguous || left is Missing
            || right is Missing),
{
    match (left, right) {
        (Resolution::Ambiguous, _) | (_, Resolution::Ambiguous) => Resolution::Ambiguous,
        (Resolution::Missing, _) | (_, Resolution::Missing) => Resolution::Missing,
        _ => Resolution::Unsupported,
    }
}

/// The arithmetic operator of a compound assignment.
pub open spec fn assignment_binary_spec(operator: SemanticAssignmentOperator) -> SemanticBinaryOperator {
    match operator {
        SemanticAssignmentOperator::Add => SemanticBinaryOperator::Add,
        SemanticAssignmentOperator::Subtract => SemanticBinaryOperator::Subtract,
        SemanticAssignmentOperator::Multiply => SemanticBinaryOperator::Multiply,
        SemanticAssignmentOperator::Divide => SemanticBinaryOperator::Divide,
        _ => SemanticBinaryOperator::Modulo,
    }
}

/// The operator that a compound assignment applies; a plain `=` has none.
pub fn assignment_binary_operator(operator: SemanticAssignmentOperator) -> (r: SemanticBinaryOperator)
    requires
        operator != SemanticAssignmentOperator::Assign,
    ensures
        r == assignment_binary_spec(operator),
{
    match operator {
        SemanticAssignmentOperator::Add => SemanticBinaryOperator::Add,
        SemanticAssignmentOperator::Subtract => SemanticBinaryOperator::Subtract,
        SemanticAssignmentOperator::Multiply => SemanticBinaryOperator::Multiply,
        SemanticAssignmentOperator::Divide => SemanticBinaryOperator::Divide,
        SemanticAssignmentOperator::Modulo => SemanticBinaryOperator::Modulo,
        SemanticAssignmentOperator::Assign => {
            proof {
                assert(false);
            }
            SemanticBinaryOperator::Add
        },
    }
}

pub open spec fn assignment_text(operator: SemanticAssignmentOperator) -> Seq<char> {
    match operator {
        SemanticAssignmentOperator::Assign => "="@,
        SemanticAssignmentOperator::Add => "+="@,
        SemanticAssignmentOperator::Subtract => "-="@,
        SemanticAssignmentOperator::Multiply => "*="@,
        SemanticAssignmentOperator::Divide => "/="@,
        SemanticAssignmentOperator::Modulo => "%="@,
    }
}

pub fn assignment_operator_text(operator: SemanticAssignmentOperator) -> (r: &'static str)
    ensures
        r@ == assignment_text(operator),
{
    match operator {
        SemanticAssignmentOperator::Assign => "=",
        SemanticAssignmentOperator::Add => "+=",
        SemanticAssignmentOperator::Subtract => "-=",
        SemanticAssignmentOperator::Multiply => "*=",
        SemanticAssignmentOperator::Divide => "/=",
        SemanticAssignmentOperator::Modulo => "%=",
    }
}

pub open spec fn unary_text(operator: SemanticUnaryOperator) -> Seq<char> {
    match operator {
        SemanticUnaryOperator::LogicalNot => "!"@,
        SemanticUnaryOperator::Negate => "-"@,
    }
}

pub fn unary_operator_text(operator: SemanticUnaryOperator) -> (r: &'static str)
    ensures
        r@ == unary_text(operator),
{
    match operator {
        SemanticUnaryOperator::LogicalNot => "!",
        SemanticUnaryOperator::Negate => "-",
    }
}

pub open spec fn binary_text(operator: SemanticBinaryOperator) -> Seq<char> {
    match operator {
        SemanticBinaryOperator::LogicalOr => "||"@,
        SemanticBinaryOperator::LogicalAnd => "&&"@,
        SemanticBinaryOperator::Equal => "=="@,
        SemanticBinaryOperator::NotEqual => "!="@,
        SemanticBinaryOperator::Less => "<"@,
        SemanticBinaryOperator::LessEqual => "<="@,
        SemanticBinaryOperator::Greater => ">"@,
        SemanticBinaryOperator::GreaterEqual => ">="@,
        SemanticBinaryOperator::Add => "+"@,
        SemanticBinaryOperator::Subtract => "-"@,
        SemanticBinaryOperator::Multiply => "*"@,
        SemanticBinaryOperator::Divide => "/"@,
        SemanticBinaryOperator::Modulo => "%"@,
    }
}

pub fn binary_operator_text(operator: SemanticBinaryOperator) -> (r: &'static str)
    ensures
        r@ == binary_text(operator),
{
    match operator {
        SemanticBinaryOperator::LogicalOr => "||",
        SemanticBinaryOperator::LogicalAnd => "&&",
        SemanticBinaryOperator::Equal => "==",
        SemanticBinaryOperator::NotEqual => "!=",
        SemanticBinaryOperator::Less => "<",
        SemanticBinaryOperator::LessEqual => "<=",
        SemanticBinaryOperator::Greater => ">",
        SemanticBinaryOperator::GreaterEqual => ">=",
        SemanticBinaryOperator::Add => "+",
        SemanticBinaryOperator::Subtract => "-",
        SemanticBinaryOperator::Multiply => "*",
        SemanticBinaryOperator::Divide => "/",
        SemanticBinaryOperator::Modulo => "%",
    }
}

} // verus!
