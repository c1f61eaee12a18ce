//! Papyrus value types, operator results and conversion rules.
use vstd::prelude::*;
use vstd::string::StringSliceAdditionalSpecFns;
use crate::semantic::{
    name_is, string_is, SemanticBinaryOperator, SemanticUnaryOperator, TypeRef, TypeRefView,
};
use crate::text::owned;

verus! {

/// The type of an expression's value.
#[derive(Debug)]
pub enum ValueType {
    Known(TypeRef),
    NoneValue,
    Void,
}

pub enum ValueTypeView {
    Known(TypeRefView),
    NoneValue,
    Void,
}

impl View for ValueType {
    type V = ValueTypeView;

    open spec fn view(&self) -> ValueTypeView {
        match self {
            ValueType::Known(ty) => ValueTypeView::Known(ty@),
            ValueType::NoneValue => ValueTypeView::NoneValue,
            ValueType::Void => ValueTypeView::Void,
        }
    }
}

/// The view of an optional value type.
pub open spec fn view_of_option(v: Option<ValueType>) -> Option<ValueTypeView> {
    match v {
        Some(t) => Some(t@),
        None => None,
    }
}

#[derive(Clone, Copy, Debug, PartialEq, Eq, Structural)]
pub enum Compatibility {
    Compatible,
    Incompatible,
    Ambiguous,
    Unresolved,
}

impl TypeRef {
    /// An equal copy of the type reference.
    pub fn copy(&self) -> (r: TypeRef)
        ensures
            r == *self,
    {
        TypeRef { name: self.name.clone(), array: self.array }
    }
}

impl ValueType {
    /// An equal copy of the value type.
    pub fn copy(&self) -> (r: ValueType)
        ensures
            r == *self,
    {
        match self {
            ValueType::Known(ty) => ValueType::Known(ty.copy()),
            ValueType::NoneValue => ValueType::NoneValue,
            ValueType::Void => ValueType::Void,
        }
    }

    pub open spec fn display_text(self) -> Seq<char> {
        match self {
            ValueType::Known(ty) => ty.name@ + if ty.array { "[]"@ } else { Seq::<char>::empty() },
            ValueType::NoneValue => "None"@,
            ValueType::Void => "no value"@,
        }
    }

    /// The type as shown in diagnostics.
    pub fn display(&self) -> (r: String)
        ensures
            r@ == self.display_text(),
    {
        match self {
            ValueType::Known(ty) => ty.display(),
            ValueType::NoneValue => owned("None"),
            ValueType::Void => owned("no value"),
        }
    }
}

/// The scalar type named by a literal.
pub open spec fn known_view(name: &str) -> ValueTypeView {
    ValueTypeView::Known(TypeRefView { name: name.spec_bytes(), array: false })
}

pub fn known(name: &str) -> (r: ValueType)
    ensures
        r@ == known_view(name),
{
    ValueType::Known(TypeRef { name: owned(name), array: false })
}

pub open spec fn scalar_named(v: ValueTypeView, name: &str) -> bool {
    v matches ValueTypeView::Known(t) && !t.array && name_is(t.name, name)
}

pub open spec fn spec_is_numeric(v: ValueTypeView) -> bool {
    scalar_named(v, "Int") || scalar_named(v, "Float") || scalar_named(v, "Var")
}

pub open spec fn spec_is_int(v: ValueTypeView) -> bool {
    scalar_named(v, "Int") || scalar_named(v, "Var")
}

pub open spec fn spec_is_float(v: ValueTypeView) -> bool {
    scalar_named(v, "Float")
}

pub open spec fn spec_is_string(v: ValueTypeView) -> bool {
    scalar_named(v, "String")
}

pub open spec fn spec_is_var(v: ValueTypeView) -> bool {
    scalar_named(v, "Var")
}

pub open spec fn spec_is_boolean_convertible(v: ValueTypeView) -> bool {
    !(v is Void)
}

pub open spec fn spec_is_primitive_name(name: Seq<u8>) -> bool {
    name_is(name, "Bool") || name_is(name, "Float") || name_is(name, "Int") || name_is(name, "String")
        || name_is(name, "Var")
}

fn scalar_is(value: &ValueType, name: &str) -> (r: bool)
    ensures
        r == scalar_named(value@, name),
{
    match value {
        ValueType::Known(ty) => !ty.array && string_is(&ty.name, name),
        _ => false,
    }
}

/// `Int`, `Float` or `Var`.
pub fn is_numeric(value: &ValueType) -> (r: bool)
    ensures
        r == spec_is_numeric(value@),
{
    scalar_is(value, "Int") || scalar_is(value, "Float") || scalar_is(value, "Var")
}

/// `Int` or `Var`.
pub fn is_int(value: &ValueType) -> (r: bool)
    ensures
        r == spec_is_int(value@),
{
    scalar_is(value, "Int") || scalar_is(value, "Var")
}

pub fn is_float(value: &ValueType) -> (r: bool)
    ensures
        r == spec_is_float(value@),
{
    scalar_is(value, "Float")
}

pub fn is_string(value: &ValueType) -> (r: bool)
    ensures
        r == spec_is_string(value@),
{
    scalar_is(value, "String")
}

pub fn is_var(value: &ValueType) -> (r: bool)
    ensures
        r == spec_is_var(value@),
{
    scalar_is(value, "Var")
}

/// Every value except the absence of one converts to `Bool`.
pub fn is_boolean_convertible(value: &ValueType) -> (r: bool)
    ensures
        r == spec_is_boolean_convertible(value@),
{
    !matches!(value, ValueType::Void)
}

pub fn is_var_name(name: &String) -> (r: bool)
    ensures
        r == name_is(crate::text::string_bytes(*name), "Var"),
{
    string_is(name, "Var")
}

/// One of the primitive types `Bool`, `Float`, `Int`, `String`, `Var`.
pub fn is_primitive_name(name: &String) -> (r: bool)
    ensures
        r == spec_is_primitive_name(crate::text::string_bytes(*name)),
{
    string_is(name, "Bool") || string_is(name, "Float") || string_is(name, "Int") || string_is(name, "String")
        || string_is(name, "Var")
}

/// Arithmetic result: `Var` if either side is `Var`, else `Float` if either
/// side is `Float`, else `Int`.
pub open spec fn numeric_result_spec(left: ValueTypeView, right: ValueTypeView) -> ValueTypeView {
    if spec_is_var(left) || spec_is_var(right) {
        known_view("Var")
    } else if spec_is_float(left) || spec_is_float(right) {
        known_view("Float")
    } else {
        known_view("Int")
    }
}

pub fn numeric_result(left: &ValueType, right: &ValueType) -> (r: ValueType)
    ensures
        r@ == numeric_result_spec(left@, right@),
{
    if is_var(left) || is_var(right) {
        known("Var")
    } else if is_float(left) || is_float(right) {
        known("Float")
    } else {
        known("Int")
    }
}

/// The type produced by a unary operator, if the operand is valid.
pub open spec fn unary_result_spec(operator: SemanticUnaryOperator, argument: ValueTypeView) -> Option<ValueTypeView> {
    match operator {
        SemanticUnaryOperator::LogicalNot => if spec_is_boolean_convertible(argument) {
            Some(known_view("Bool"))
        } else {
            None
        },
        SemanticUnaryOperator::Negate => if spec_is_numeric(argument) {
            Some(argument)
        } else {
            None
        },
    }
}

pub fn unary_result(operator: SemanticUnaryOperator, argument: &ValueType) -> (r: Option<ValueType>)
    ensures
        view_of_option(r) == unary_result_spec(operator, argument@),
{
    match operator {
        SemanticUnaryOperator::LogicalNot => if is_boolean_convertible(argument) {
            Some(known("Bool"))
        } else {
            None
        },
        SemanticUnaryOperator::Negate => if is_numeric(argument) {
            Some(argument.copy())
        } else {
            None
        },
    }
}

/// The type produced by a binary operator, if the operands are valid.
pub open spec fn binary_result_spec(operator: SemanticBinaryOperator, left: ValueTypeView, right: ValueTypeView) -> Option<ValueTypeView> {
    match operator {
        SemanticBinaryOperator::LogicalOr | SemanticBinaryOperator::LogicalAnd => {
            if spec_is_boolean_convertible(left) && spec_is_boolean_convertible(right) {
                Some(known_view("Bool"))
            } else {
                None
            }
        },
        SemanticBinaryOperator::Equal | SemanticBinaryOperator::NotEqual => {
            if !(left is Void) && !(right is Void) {
                Some(known_view("Bool"))
            } else {
                None
            }
        },
        SemanticBinaryOperator::Less | SemanticBinaryOperator::LessEqual | SemanticBinaryOperator::Greater
        | SemanticBinaryOperator::GreaterEqual => {
            if spec_is_numeric(left) && spec_is_numeric(right) {
                Some(known_view("Bool"))
            } else {
                None
            }
        },
        SemanticBinaryOperator::Add => {
            if spec_is_string(left) || spec_is_string(right) {
                Some(known_view("String"))
            } else if spec_is_numeric(left) && spec_is_numeric(right) {
                Some(numeric_result_spec(left, right))
            } else {
                None
            }
        },
        SemanticBinaryOperator::Subtract | SemanticBinaryOperator::Multiply | SemanticBinaryOperator::Divide => {
            if spec_is_numeric(left) && spec_is_numeric(right) {
                Some(numeric_result_spec(left, right))
            } else {
                None
            }
        },
        SemanticBinaryOperator::Modulo => {
            if spec_is_int(left) && spec_is_int(right) {
                if spec_is_var(left) || spec_is_var(right) {
                    Some(known_view("Var"))
                } else {
                    Some(known_view("Int"))
                }
            } else {
                None
            }
        },
    }
}

pub fn binary_result(operator: SemanticBinaryOperator, left: &ValueType, right: &ValueType) -> (r: Option<ValueType>)
    ensures
        view_of_option(r) == binary_result_spec(operator, left@, right@),
{
    match operator {
        SemanticBinaryOperator::LogicalOr | SemanticBinaryOperator::LogicalAnd => {
            if is_boolean_convertible(left) && is_boolean_convertible(right) {
                Some(known("Bool"))
            } else {
                None
            }
        },
        SemanticBinaryOperator::Equal | SemanticBinaryOperator::NotEqual => {
            if !matches!(left, ValueType::Void) && !matches!(right, ValueType::Void) {
                Some(known("Bool"))
            } else {
                None
            }
        },
        SemanticBinaryOperator::Less | SemanticBinaryOperator::LessEqual | SemanticBinaryOperator::Greater
        | SemanticBinaryOperator::GreaterEqual => {
            if is_numeric(left) && is_numeric(right) {
                Some(known("Bool"))
            } else {
                None
            }
        },
        SemanticBinaryOperator::Add => {
            if is_string(left) || is_string(right) {
                Some(known("String"))
            } else if is_numeric(left) && is_numeric(right) {
                Some(numeric_result(left, right))
            } else {
                None
            }
        },
        SemanticBinaryOperator::Subtract | SemanticBinaryOperator::Multiply | SemanticBinaryOperator::Divide => {
            if is_numeric(left) && is_numeric(right) {
                Some(numeric_result(left, right))
            } else {
                None
            }
        },
        SemanticBinaryOperator::Modulo => {
            if is_int(left) && is_int(right) {
                if is_var(left) || is_var(right) {
                    Some(known("Var"))
                } else {
                    Some(known("Int"))
                }
            } else {
                None
            }
        },
    }
}

/// Either direction compatible wins; otherwise ambiguity, then an unresolved
/// hierarchy, is reported before incompatibility.
pub open spec fn combine_spec(left: Compatibility, right: Compatibility) -> Compatibility {
    if left == Compatibility::Compatible || right == Compatibility::Compatible {
        Compatibility::Compatible
    } else if left == Compatibility::Ambiguous || right == Compatibility::Ambiguous {
        Compatibility::Ambiguous
    } else if left == Compatibility::Unresolved || right == Compatibility::Unresolved {
        Compatibility::Unresolved
    } else {
        Compatibility::Incompatible
    }
}

pub fn combine_compatibility(left: Compatibility, right: Compatibility) -> (r: Compatibility)
    ensures
        r == combine_spec(left, right),
{
    if left == Compatibility::Compatible || right == Compatibility::Compatible {
        Compatibility::Compatible
    } else if left == Compatibility::Ambiguous || right == Compatibility::Ambiguous {
        Compatibility::Ambiguous
    } else if left == Compatibility::Unresolved || right == Compatibility::Unresolved {
        Compatibility::Unresolved
    } else {
        Compatibility::Incompatible
    }
}

/// Combining compatibilities is symmetric.
pub proof fn law_combine_symmetric(left: Compatibility, right: Compatibility)
    ensures
        combine_spec(left, right) == combine_spec(right, left),
{
}

/// Every operator result is boolean-convertible: an operator never yields the
/// absence of a value.
pub proof fn law_operator_results_are_values(operator: SemanticBinaryOperator, left: ValueTypeView, right: ValueTypeView)
    ensures
        binary_result_spec(operator, left, right) matches Some(v) ==> spec_is_boolean_convertible(v),
{
}

/// Comparisons and logical operators produce `Bool`.
pub proof fn law_comparisons_produce_bool(operator: SemanticBinaryOperator, left: ValueTypeView, right: ValueTypeView)
    requires
        !(operator is Add || operator is Subtract || operator is Multiply || operator is Divide || operator is Modulo),
    ensures
        binary_result_spec(operator, left, right) matches Some(v) ==> v == known_view("Bool"),
{
}

} // verus!
