//! Semantic validation of a document's expressions and statements: the
//! operand, subscript, cast, assignment, return and condition rules of
//! Papyrus, and the arguments of calls.
use vstd::prelude::*;
use vstd::string::StringSliceAdditionalSpecFns;
use vstd::utf8::encode_utf8;
use crate::compatibility::{cast_spec, equality_spec, type_compatibility_spec};
use crate::inference::{
    Resolution, assignment_binary_operator, assignment_binary_spec, assignment_operator_text,
    assignment_text, binary_operator_text, binary_text, merge_failures, merged_failure,
    unary_operator_text, unary_text,
};
use crate::line_index::TextRange;
use crate::resolution::{ExpressionResolutionView, failure, resolve_spec, type_spec, value_view};
use crate::semantic::{
    DeclarationKind, SemanticAssignmentOperator, SemanticBinaryOperator, SemanticExpression,
    SemanticTypeCheck, TypeRef, TypeRefView,
};
use crate::text::{append_text, owned, string_bytes};
use crate::type_system::{
    spec_is_primitive_name, Compatibility, ValueType, ValueTypeView, binary_result, binary_result_spec, is_boolean_convertible,
    is_int, spec_is_boolean_convertible, spec_is_int, unary_result, unary_result_spec,
};
use crate::workspace::{DeclRef, WorkspaceIndex};

verus! {

/// The kind of a semantic issue, reported as its code.
#[derive(Clone, Copy, Debug, PartialEq, Eq, Structural)]
pub enum SemanticIssueCode {
    UnresolvedType,
    AmbiguousType,
    UnresolvedMember,
    AmbiguousMember,
    UnresolvedReference,
    AmbiguousReference,
    AmbiguousCallTarget,
    InvalidCallTarget,
    UnknownNamedArgument,
    DuplicateNamedArgument,
    TooManyArguments,
    MissingRequiredArgument,
    InvalidCondition,
    InvalidCompoundAssignment,
    InvalidAssignmentTarget,
    IncompatibleAssignment,
    IncompatibleReturn,
    MissingReturnValue,
    UnexpectedReturnValue,
    VoidValueUse,
    InvalidSubscriptIndex,
    InvalidSubscriptTarget,
    InvalidCast,
    InvalidTypeTest,
    InvalidArraySize,
    InvalidUnaryOperand,
    InvalidBinaryOperands,
}

impl SemanticIssueCode {
    pub open spec fn spec_text(self) -> Seq<char> {
        match self {
            SemanticIssueCode::UnresolvedType => "unresolved-type"@,
            SemanticIssueCode::AmbiguousType => "ambiguous-type"@,
            SemanticIssueCode::UnresolvedMember => "unresolved-member"@,
            SemanticIssueCode::AmbiguousMember => "ambiguous-member"@,
            SemanticIssueCode::UnresolvedReference => "unresolved-reference"@,
            SemanticIssueCode::AmbiguousReference => "ambiguous-reference"@,
            SemanticIssueCode::AmbiguousCallTarget => "ambiguous-call-target"@,
            SemanticIssueCode::InvalidCallTarget => "invalid-call-target"@,
            SemanticIssueCode::UnknownNamedArgument => "unknown-named-argument"@,
            SemanticIssueCode::DuplicateNamedArgument => "duplicate-named-argument"@,
            SemanticIssueCode::TooManyArguments => "too-many-arguments"@,
            SemanticIssueCode::MissingRequiredArgument => "missing-required-argument"@,
            SemanticIssueCode::InvalidCondition => "invalid-condition"@,
            SemanticIssueCode::InvalidCompoundAssignment => "invalid-compound-assignment"@,
            SemanticIssueCode::InvalidAssignmentTarget => "invalid-assignment-target"@,
            SemanticIssueCode::IncompatibleAssignment => "incompatible-assignment"@,
            SemanticIssueCode::IncompatibleReturn => "incompatible-return"@,
            SemanticIssueCode::MissingReturnValue => "missing-return-value"@,
            SemanticIssueCode::UnexpectedReturnValue => "unexpected-return-value"@,
            SemanticIssueCode::VoidValueUse => "void-value-use"@,
            SemanticIssueCode::InvalidSubscriptIndex => "invalid-subscript-index"@,
            SemanticIssueCode::InvalidSubscriptTarget => "invalid-subscript-target"@,
            SemanticIssueCode::InvalidCast => "invalid-cast"@,
            SemanticIssueCode::InvalidTypeTest => "invalid-type-test"@,
            SemanticIssueCode::InvalidArraySize => "invalid-array-size"@,
            SemanticIssueCode::InvalidUnaryOperand => "invalid-unary-operand"@,
            SemanticIssueCode::InvalidBinaryOperands => "invalid-binary-operands"@,
        }
    }

    /// The code as reported to the editor.
    pub fn text(&self) -> (r: &'static str)
        ensures
            r@ == self.spec_text(),
    {
        match self {
            SemanticIssueCode::UnresolvedType => "unresolved-type",
            SemanticIssueCode::AmbiguousType => "ambiguous-type",
            SemanticIssueCode::UnresolvedMember => "unresolved-member",
            SemanticIssueCode::AmbiguousMember => "ambiguous-member",
            SemanticIssueCode::UnresolvedReference => "unresolved-reference",
            SemanticIssueCode::AmbiguousReference => "ambiguous-reference",
            SemanticIssueCode::AmbiguousCallTarget => "ambiguous-call-target",
            SemanticIssueCode::InvalidCallTarget => "invalid-call-target",
            SemanticIssueCode::UnknownNamedArgument => "unknown-named-argument",
            SemanticIssueCode::DuplicateNamedArgument => "duplicate-named-argument",
            SemanticIssueCode::TooManyArguments => "too-many-arguments",
            SemanticIssueCode::MissingRequiredArgument => "missing-required-argument",
            SemanticIssueCode::InvalidCondition => "invalid-condition",
            SemanticIssueCode::InvalidCompoundAssignment => "invalid-compound-assignment",
            SemanticIssueCode::InvalidAssignmentTarget => "invalid-assignment-target",
            SemanticIssueCode::IncompatibleAssignment => "incompatible-assignment",
            SemanticIssueCode::IncompatibleReturn => "incompatible-return",
            SemanticIssueCode::MissingReturnValue => "missing-return-value",
            SemanticIssueCode::UnexpectedReturnValue => "unexpected-return-value",
            SemanticIssueCode::VoidValueUse => "void-value-use",
            SemanticIssueCode::InvalidSubscriptIndex => "invalid-subscript-index",
            SemanticIssueCode::InvalidSubscriptTarget => "invalid-subscript-target",
            SemanticIssueCode::InvalidCast => "invalid-cast",
            SemanticIssueCode::InvalidTypeTest => "invalid-type-test",
            SemanticIssueCode::InvalidArraySize => "invalid-array-size",
            SemanticIssueCode::InvalidUnaryOperand => "invalid-unary-operand",
            SemanticIssueCode::InvalidBinaryOperands => "invalid-binary-operands",
        }
    }
}

/// A semantic problem found at a range of the document.
#[derive(Debug)]
pub struct SemanticIssue {
    pub range: TextRange,
    pub code: SemanticIssueCode,
    pub message: String,
}

pub struct SemanticIssueView {
    pub range: TextRange,
    pub code: SemanticIssueCode,
    pub message: Seq<u8>,
}

impl View for SemanticIssue {
    type V = SemanticIssueView;

    open spec fn view(&self) -> SemanticIssueView {
        SemanticIssueView { range: self.range, code: self.code, message: string_bytes(self.message) }
    }
}

pub open spec fn issue_views(s: Seq<SemanticIssue>) -> Seq<SemanticIssueView> {
    s.map_values(|i: SemanticIssue| i@)
}

pub open spec fn issue(range: TextRange, code: SemanticIssueCode, message: Seq<u8>) -> SemanticIssueView {
    SemanticIssueView { range, code, message }
}

/// A type as shown in messages: its name, then `[]` for an array.
pub open spec fn type_text(t: TypeRefView) -> Seq<u8> {
    t.name + if t.array {
        "[]".spec_bytes()
    } else {
        Seq::<u8>::empty()
    }
}

/// A value type as shown in messages.
pub open spec fn value_text(v: ValueTypeView) -> Seq<u8> {
    match v {
        ValueTypeView::Known(t) => type_text(t),
        ValueTypeView::NoneValue => "None".spec_bytes(),
        ValueTypeView::Void => "no value".spec_bytes(),
    }
}

/// The use of an expression that gives no value.
pub open spec fn void_issue(range: TextRange) -> SemanticIssueView {
    issue(range, SemanticIssueCode::VoidValueUse, "Expression does not produce a value".spec_bytes())
}

fn add_type(message: &mut String, t: &TypeRef)
    ensures
        string_bytes(*final(message)) == string_bytes(*old(message)) + type_text(t@),
{
    append_text(message, t.name.as_str());
    if t.array {
        append_text(message, "[]");
    } else {
        assert(string_bytes(*message) =~= string_bytes(*message) + Seq::<u8>::empty());
    }
    assert(string_bytes(*message) =~= string_bytes(*old(message)) + type_text(t@));
}

fn add_value(message: &mut String, v: &ValueType)
    ensures
        string_bytes(*final(message)) == string_bytes(*old(message)) + value_text(v@),
{
    match v {
        ValueType::Known(t) => add_type(message, t),
        ValueType::NoneValue => append_text(message, "None"),
        ValueType::Void => append_text(message, "no value"),
    }
}

fn push_issue(issues: &mut Vec<SemanticIssue>, range: TextRange, code: SemanticIssueCode, message: String)
    ensures
        issue_views(final(issues)@) == issue_views(old(issues)@).push(issue(range, code, string_bytes(message))),
{
    issues.push(SemanticIssue { range, code, message });
    assert(issue_views(issues@) =~= issue_views(old(issues)@).push(issue(range, code, string_bytes(message))));
}

fn push_void_value(issues: &mut Vec<SemanticIssue>, range: TextRange)
    ensures
        issue_views(final(issues)@) == issue_views(old(issues)@).push(void_issue(range)),
{
    push_issue(issues, range, SemanticIssueCode::VoidValueUse, owned("Expression does not produce a value"));
}

/// The issue of a subscript's index.
#[verifier::opaque]
pub open spec fn index_issues(range: TextRange, t: Resolution<ValueTypeView>) -> Seq<SemanticIssueView> {
    match t {
        Resolution::Resolved(ValueTypeView::Void) => seq![void_issue(range)],
        Resolution::Resolved(v) => if spec_is_int(v) {
            Seq::empty()
        } else {
            seq![
                issue(
                    range,
                    SemanticIssueCode::InvalidSubscriptIndex,
                    "Array index must be Int, not ".spec_bytes() + value_text(v),
                ),
            ]
        },
        _ => Seq::empty(),
    }
}

/// The issue of what is subscripted.
#[verifier::opaque]
pub open spec fn target_issues(range: TextRange, t: Resolution<ValueTypeView>) -> Seq<SemanticIssueView> {
    match t {
        Resolution::Resolved(ValueTypeView::Void) => seq![void_issue(range)],
        Resolution::Resolved(v) => if v matches ValueTypeView::Known(k) && k.array {
            Seq::empty()
        } else {
            seq![issue(range, SemanticIssueCode::InvalidSubscriptTarget, "Cannot subscript ".spec_bytes() + value_text(v))]
        },
        _ => Seq::empty(),
    }
}

/// The issue of an array size.
#[verifier::opaque]
pub open spec fn size_issues(range: TextRange, t: Resolution<ValueTypeView>) -> Seq<SemanticIssueView> {
    match t {
        Resolution::Resolved(ValueTypeView::Void) => seq![void_issue(range)],
        Resolution::Resolved(v) => if spec_is_int(v) {
            Seq::empty()
        } else {
            seq![issue(range, SemanticIssueCode::InvalidArraySize, "Array size must be Int, not ".spec_bytes() + value_text(v))]
        },
        _ => Seq::empty(),
    }
}

/// The issue of a cast (`As`) or a type test (`Is`) that no value could pass.
#[verifier::opaque]
pub open spec fn conversion_issues(
    ws: WorkspaceIndex,
    range: TextRange,
    t: Resolution<ValueTypeView>,
    ty: TypeRefView,
    code: SemanticIssueCode,
    before: Seq<u8>,
    between: Seq<u8>,
) -> Seq<SemanticIssueView> {
    match t {
        Resolution::Resolved(v) => if cast_spec(ws, v, ty) == Compatibility::Incompatible {
            seq![issue(range, code, before + value_text(v) + between + type_text(ty))]
        } else {
            Seq::empty()
        },
        _ => Seq::empty(),
    }
}

/// The type of an expression's value as `type_spec` gives it from the top.
#[verifier::opaque]
pub open spec fn typed(ws: WorkspaceIndex, cur: int, e: SemanticExpression) -> Resolution<ValueTypeView> {
    type_spec(ws, cur, e, 0)
}

/// What a unary operator adds: the issue of an operand it cannot take, and
/// the type of its result.
#[verifier::opaque]
pub open spec fn unary_step(
    operator: crate::semantic::SemanticUnaryOperator,
    operator_range: TextRange,
    a: Resolution<ValueTypeView>,
) -> (Seq<SemanticIssueView>, Resolution<ValueTypeView>) {
    match a {
        Resolution::Resolved(t) => match unary_result_spec(operator, t) {
            Some(v) => (Seq::empty(), Resolution::Resolved(v)),
            None => (
                seq![
                    issue(
                        operator_range,
                        SemanticIssueCode::InvalidUnaryOperand,
                        "Operator '".spec_bytes() + encode_utf8(unary_text(operator)) + "' cannot be applied to ".spec_bytes()
                            + value_text(t),
                    ),
                ],
                Resolution::Unsupported,
            ),
        },
        other => (Seq::empty(), other),
    }
}

/// What a binary operator adds: `==` and `!=` take operands that can be
/// compared, the others operands that give a result; otherwise the issue,
/// and no type. When an operand has no type, the merged failure.
#[verifier::opaque]
pub open spec fn binary_step(
    ws: WorkspaceIndex,
    operator: SemanticBinaryOperator,
    operator_range: TextRange,
    l: Resolution<ValueTypeView>,
    r: Resolution<ValueTypeView>,
) -> (Seq<SemanticIssueView>, Resolution<ValueTypeView>) {
    match (l, r) {
        (Resolution::Resolved(lt), Resolution::Resolved(rt)) => {
            let incompatible = if operator == SemanticBinaryOperator::Equal || operator == SemanticBinaryOperator::NotEqual {
                equality_spec(ws, lt, rt) == Compatibility::Incompatible
            } else {
                binary_result_spec(operator, lt, rt) is None
            };
            if incompatible {
                (
                    seq![
                        issue(
                            operator_range,
                            SemanticIssueCode::InvalidBinaryOperands,
                            "Operator '".spec_bytes() + encode_utf8(binary_text(operator)) + "' cannot combine ".spec_bytes()
                                + value_text(lt) + " and ".spec_bytes() + value_text(rt),
                        ),
                    ],
                    Resolution::Unsupported,
                )
            } else {
                (
                    Seq::empty(),
                    match binary_result_spec(operator, lt, rt) {
                        Some(v) => Resolution::Resolved(v),
                        None => Resolution::Unsupported,
                    },
                )
            }
        },
        _ => (Seq::empty(), value_view(merged_failure(l, r))),
    }
}

/// The issues of the first `k` expressions of a list, in order.
pub open spec fn list_checked(ws: WorkspaceIndex, cur: int, es: Seq<SemanticExpression>, k: int) -> Seq<
    SemanticIssueView,
>
    decreases es, k,
{
    if k <= 0 || k > es.len() {
        Seq::empty()
    } else {
        list_checked(ws, cur, es, k - 1) + checked(ws, cur, es[k - 1]).0
    }
}

/// The issues of an expression, in the order the checks meet them, and the
/// type of its value: the operands of a unary or binary operator are
/// checked, and an operator that cannot take them gives no type; any other
/// expression has the type that `type_spec` gives it.
pub open spec fn checked(ws: WorkspaceIndex, cur: int, e: SemanticExpression) -> (Seq<SemanticIssueView>, Resolution<
    ValueTypeView,
>)
    decreases e, 0int,
{
    match e {
        SemanticExpression::Identifier { .. } => (Seq::empty(), typed(ws, cur, e)),
        SemanticExpression::Literal { .. } => (Seq::empty(), typed(ws, cur, e)),
        SemanticExpression::Member { object, .. } => {
            let inner = checked(ws, cur, *object);
            if inner.1 == Resolution::<ValueTypeView>::Resolved(ValueTypeView::Void) {
                (inner.0.push(void_issue(object.spec_range())), Resolution::Unsupported)
            } else {
                (inner.0, typed(ws, cur, e))
            }
        },
        SemanticExpression::Call { function, arguments, .. } => (
            checked(ws, cur, *function).0 + list_checked(ws, cur, arguments@, arguments@.len() as int),
            typed(ws, cur, e),
        ),
        SemanticExpression::Subscript { array, index, .. } => {
            let a = checked(ws, cur, *array);
            let i = checked(ws, cur, *index);
            (
                a.0 + i.0 + index_issues(index.spec_range(), i.1) + target_issues(array.spec_range(), a.1),
                typed(ws, cur, e),
            )
        },
        SemanticExpression::Cast { value, ty, range } => {
            let v = checked(ws, cur, *value);
            (
                v.0 + conversion_issues(
                    ws,
                    range,
                    v.1,
                    ty@,
                    SemanticIssueCode::InvalidCast,
                    "Cannot cast ".spec_bytes(),
                    " to ".spec_bytes(),
                ),
                typed(ws, cur, e),
            )
        },
        SemanticExpression::TypeTest { value, ty, range } => {
            let v = checked(ws, cur, *value);
            (
                v.0 + conversion_issues(
                    ws,
                    range,
                    v.1,
                    ty@,
                    SemanticIssueCode::InvalidTypeTest,
                    "Cannot test ".spec_bytes(),
                    " against ".spec_bytes(),
                ),
                typed(ws, cur, e),
            )
        },
        SemanticExpression::Parenthesized { value, .. } => checked(ws, cur, *value),
        SemanticExpression::New { size, .. } => match size {
            Some(s) => {
                let c = checked(ws, cur, *s);
                (c.0 + size_issues(s.spec_range(), c.1), typed(ws, cur, e))
            },
            None => (Seq::empty(), typed(ws, cur, e)),
        },
        SemanticExpression::Unary { operator, operator_range, argument, .. } => {
            let a = checked(ws, cur, *argument);
            let step = unary_step(operator, operator_range, a.1);
            (a.0 + step.0, step.1)
        },
        SemanticExpression::Binary { left, operator, operator_range, right, .. } => {
            let l = checked(ws, cur, *left);
            let r = checked(ws, cur, *right);
            let step = binary_step(ws, operator, operator_range, l.1, r.1);
            (l.0 + r.0 + step.0, step.1)
        },
    }
}

fn add_index_issues(issues: &mut Vec<SemanticIssue>, range: TextRange, t: &Resolution<ValueType>)
    ensures
        issue_views(final(issues)@) == issue_views(old(issues)@) + index_issues(range, value_view(*t)),
{
    proof {
        reveal(index_issues);
    }
    if let Resolution::Resolved(v) = t {
        if matches!(v, ValueType::Void) {
            push_void_value(issues, range);
        } else if !is_int(v) {
            let mut m = owned("Array index must be Int, not ");
            add_value(&mut m, v);
            push_issue(issues, range, SemanticIssueCode::InvalidSubscriptIndex, m);
        }
    }
    assert(issue_views(issues@) =~= issue_views(old(issues)@) + index_issues(range, value_view(*t)));
}

fn add_target_issues(issues: &mut Vec<SemanticIssue>, range: TextRange, t: &Resolution<ValueType>)
    ensures
        issue_views(final(issues)@) == issue_views(old(issues)@) + target_issues(range, value_view(*t)),
{
    proof {
        reveal(target_issues);
    }
    if let Resolution::Resolved(v) = t {
        if matches!(v, ValueType::Void) {
            push_void_value(issues, range);
        } else {
            let is_array = match v {
                ValueType::Known(k) => k.array,
                _ => false,
            };
            if !is_array {
                let mut m = owned("Cannot subscript ");
                add_value(&mut m, v);
                push_issue(issues, range, SemanticIssueCode::InvalidSubscriptTarget, m);
            }
        }
    }
    assert(issue_views(issues@) =~= issue_views(old(issues)@) + target_issues(range, value_view(*t)));
}

fn add_size_issues(issues: &mut Vec<SemanticIssue>, range: TextRange, t: &Resolution<ValueType>)
    ensures
        issue_views(final(issues)@) == issue_views(old(issues)@) + size_issues(range, value_view(*t)),
{
    proof {
        reveal(size_issues);
    }
    if let Resolution::Resolved(v) = t {
        if matches!(v, ValueType::Void) {
            push_void_value(issues, range);
        } else if !is_int(v) {
            let mut m = owned("Array size must be Int, not ");
            add_value(&mut m, v);
            push_issue(issues, range, SemanticIssueCode::InvalidArraySize, m);
        }
    }
    assert(issue_views(issues@) =~= issue_views(old(issues)@) + size_issues(range, value_view(*t)));
}

impl WorkspaceIndex {
    fn add_conversion_issues(
        &self,
        issues: &mut Vec<SemanticIssue>,
        range: TextRange,
        t: &Resolution<ValueType>,
        ty: &TypeRef,
        code: SemanticIssueCode,
        before: &str,
        between: &str,
    )
        ensures
            issue_views(final(issues)@) == issue_views(old(issues)@) + conversion_issues(
                *self,
                range,
                value_view(*t),
                ty@,
                code,
                before.spec_bytes(),
                between.spec_bytes(),
            ),
    {
        proof {
            reveal(conversion_issues);
        }
        if let Resolution::Resolved(v) = t {
            if self.cast_compatibility(v, ty) == Compatibility::Incompatible {
                let mut m = owned(before);
                add_value(&mut m, v);
                append_text(&mut m, between);
                add_type(&mut m, ty);
                push_issue(issues, range, code, m);
            }
        }
        assert(issue_views(issues@) =~= issue_views(old(issues)@) + conversion_issues(
            *self,
            range,
            value_view(*t),
            ty@,
            code,
            before.spec_bytes(),
            between.spec_bytes(),
        ));
    }

    fn check_unary(
        &self,
        issues: &mut Vec<SemanticIssue>,
        operator: crate::semantic::SemanticUnaryOperator,
        operator_range: TextRange,
        a: Resolution<ValueType>,
    ) -> (r: Resolution<ValueType>)
        ensures
            issue_views(final(issues)@) == issue_views(old(issues)@) + unary_step(operator, operator_range, value_view(a)).0,
            value_view(r) == unary_step(operator, operator_range, value_view(a)).1,
    {
        proof {
            reveal(unary_step);
        }
        match a {
            Resolution::Resolved(t) => match unary_result(operator, &t) {
                Some(v) => {
                    assert(issue_views(issues@) =~= issue_views(old(issues)@) + Seq::<SemanticIssueView>::empty());
                    Resolution::Resolved(v)
                },
                None => {
                    let mut m = owned("Operator '");
                    append_text(&mut m, unary_operator_text(operator));
                    append_text(&mut m, "' cannot be applied to ");
                    add_value(&mut m, &t);
                    push_issue(issues, operator_range, SemanticIssueCode::InvalidUnaryOperand, m);
                    Resolution::Unsupported
                },
            },
            Resolution::Missing => {
                assert(issue_views(issues@) =~= issue_views(old(issues)@) + Seq::<SemanticIssueView>::empty());
                Resolution::Missing
            },
            Resolution::Ambiguous => {
                assert(issue_views(issues@) =~= issue_views(old(issues)@) + Seq::<SemanticIssueView>::empty());
                Resolution::Ambiguous
            },
            Resolution::Unsupported => {
                assert(issue_views(issues@) =~= issue_views(old(issues)@) + Seq::<SemanticIssueView>::empty());
                Resolution::Unsupported
            },
        }
    }

    fn check_binary(
        &self,
        issues: &mut Vec<SemanticIssue>,
        operator: SemanticBinaryOperator,
        operator_range: TextRange,
        l: Resolution<ValueType>,
        r: Resolution<ValueType>,
    ) -> (out: Resolution<ValueType>)
        ensures
            issue_views(final(issues)@) == issue_views(old(issues)@) + binary_step(
                *self,
                operator,
                operator_range,
                value_view(l),
                value_view(r),
            ).0,
            value_view(out) == binary_step(*self, operator, operator_range, value_view(l), value_view(r)).1,
    {
        proof {
            reveal(binary_step);
        }
        let (lt, rt) = match (l, r) {
            (Resolution::Resolved(lt), Resolution::Resolved(rt)) => (lt, rt),
            (l, r) => {
                assert(issue_views(issues@) =~= issue_views(old(issues)@) + Seq::<SemanticIssueView>::empty());
                return merge_failures(l, r);
            },
        };
        let incompatible = if matches!(operator, SemanticBinaryOperator::Equal)
            || matches!(operator, SemanticBinaryOperator::NotEqual) {
            self.equality_compatibility(&lt, &rt) == Compatibility::Incompatible
        } else {
            binary_result(operator, &lt, &rt).is_none()
        };
        if incompatible {
            let mut m = owned("Operator '");
            append_text(&mut m, binary_operator_text(operator));
            append_text(&mut m, "' cannot combine ");
            add_value(&mut m, &lt);
            append_text(&mut m, " and ");
            add_value(&mut m, &rt);
            push_issue(issues, operator_range, SemanticIssueCode::InvalidBinaryOperands, m);
            return Resolution::Unsupported;
        }
        assert(issue_views(issues@) =~= issue_views(old(issues)@) + Seq::<SemanticIssueView>::empty());
        match binary_result(operator, &lt, &rt) {
            Some(v) => Resolution::Resolved(v),
            None => Resolution::Unsupported,
        }
    }
}

impl WorkspaceIndex {
    fn value_type(&self, cur: usize, e: &SemanticExpression) -> (r: Resolution<ValueType>)
        requires
            cur < self.documents@.len(),
        ensures
            value_view(r) == typed(*self, cur as int, *e),
    {
        proof {
            reveal(typed);
        }
        self.expression_type_outcome(cur, e, 0)
    }

    /// Checks an expression (`validate_expression`): appends its issues and
    /// returns the type of its value.
    pub fn validate_expression(&self, cur: usize, e: &SemanticExpression, issues: &mut Vec<SemanticIssue>) -> (r: Resolution<
        ValueType,
    >)
        requires
            cur < self.documents@.len(),
        ensures
            issue_views(final(issues)@) == issue_views(old(issues)@) + checked(*self, cur as int, *e).0,
            value_view(r) == checked(*self, cur as int, *e).1,
        decreases e,
    {
        let ghost start = issue_views(issues@);
        let r = match e {
            SemanticExpression::Identifier { .. } | SemanticExpression::Literal { .. } => {
                let r = self.value_type(cur, e);
                proof {
                    assert(issue_views(issues@) =~= start + checked(*self, cur as int, *e).0 && value_view(r) == checked(
                        *self,
                        cur as int,
                        *e,
                    ).1) by {
                        reveal(checked);
                    }
                }
                r
            },
            SemanticExpression::Member { object, .. } => {
                let t = self.validate_expression(cur, object, issues);
                let r = if matches!(t, Resolution::Resolved(ValueType::Void)) {
                    push_void_value(issues, object.range());
                    Resolution::Unsupported
                } else {
                    self.value_type(cur, e)
                };
                proof {
                    assert(issue_views(issues@) =~= start + checked(*self, cur as int, *e).0 && value_view(r) == checked(
                        *self,
                        cur as int,
                        *e,
                    ).1) by {
                        reveal(checked);
                    }
                }
                r
            },
            SemanticExpression::Call { function, arguments, .. } => {
                let _ = self.validate_expression(cur, function, issues);
                let ghost mid = issue_views(issues@);
                let mut i: usize = 0;
                assert(mid =~= mid + list_checked(*self, cur as int, arguments@, 0));
                while i < arguments.len()
                    invariant
                        cur < self.documents@.len(),
                        *e is Call,
                        e->arguments == *arguments,
                        0 <= i <= arguments@.len(),
                        issue_views(issues@) == mid + list_checked(*self, cur as int, arguments@, i as int),
                    decreases arguments@.len() - i,
                {
                    let _ = self.validate_expression(cur, &arguments[i], issues);
                    assert(issue_views(issues@) =~= mid + list_checked(*self, cur as int, arguments@, i + 1));
                    i = i + 1;
                }
                let r = self.value_type(cur, e);
                proof {
                    assert(issue_views(issues@) =~= start + checked(*self, cur as int, *e).0 && value_view(r) == checked(
                        *self,
                        cur as int,
                        *e,
                    ).1) by {
                        reveal(checked);
                    }
                }
                r
            },
            SemanticExpression::Subscript { array, index, .. } => {
                let a = self.validate_expression(cur, array, issues);
                let t = self.validate_expression(cur, index, issues);
                add_index_issues(issues, index.range(), &t);
                add_target_issues(issues, array.range(), &a);
                let r = self.value_type(cur, e);
                proof {
                    assert(issue_views(issues@) =~= start + checked(*self, cur as int, *e).0 && value_view(r) == checked(
                        *self,
                        cur as int,
                        *e,
                    ).1) by {
                        reveal(checked);
                    }
                }
                r
            },
            SemanticExpression::Cast { value, ty, range } => {
                let v = self.validate_expression(cur, value, issues);
                self.add_conversion_issues(issues, *range, &v, ty, SemanticIssueCode::InvalidCast, "Cannot cast ", " to ");
                let r = self.value_type(cur, e);
                proof {
                    assert(issue_views(issues@) =~= start + checked(*self, cur as int, *e).0 && value_view(r) == checked(
                        *self,
                        cur as int,
                        *e,
                    ).1) by {
                        reveal(checked);
                    }
                }
                r
            },
            SemanticExpression::TypeTest { value, ty, range } => {
                let v = self.validate_expression(cur, value, issues);
                self.add_conversion_issues(
                    issues,
                    *range,
                    &v,
                    ty,
                    SemanticIssueCode::InvalidTypeTest,
                    "Cannot test ",
                    " against ",
                );
                let r = self.value_type(cur, e);
                proof {
                    assert(issue_views(issues@) =~= start + checked(*self, cur as int, *e).0 && value_view(r) == checked(
                        *self,
                        cur as int,
                        *e,
                    ).1) by {
                        reveal(checked);
                    }
                }
                r
            },
            SemanticExpression::Parenthesized { value, .. } => {
                let r = self.validate_expression(cur, value, issues);
                proof {
                    assert(issue_views(issues@) =~= start + checked(*self, cur as int, *e).0 && value_view(r) == checked(
                        *self,
                        cur as int,
                        *e,
                    ).1) by {
                        reveal(checked);
                    }
                }
                r
            },
            SemanticExpression::New { size, .. } => {
                match size {
                    Some(s) => {
                        let t = self.validate_expression(cur, s, issues);
                        add_size_issues(issues, s.range(), &t);
                    },
                    None => {
                        assert(issue_views(issues@) =~= start + Seq::<SemanticIssueView>::empty());
                    },
                }
                let r = self.value_type(cur, e);
                proof {
                    assert(issue_views(issues@) =~= start + checked(*self, cur as int, *e).0 && value_view(r) == checked(
                        *self,
                        cur as int,
                        *e,
                    ).1) by {
                        reveal(checked);
                    }
                }
                r
            },
            SemanticExpression::Unary { operator, operator_range, argument, .. } => {
                let a = self.validate_expression(cur, argument, issues);
                let r = self.check_unary(issues, *operator, *operator_range, a);
                proof {
                    assert(issue_views(issues@) =~= start + checked(*self, cur as int, *e).0 && value_view(r) == checked(
                        *self,
                        cur as int,
                        *e,
                    ).1) by {
                        reveal(checked);
                    }
                }
                r
            },
            SemanticExpression::Binary { left, operator, operator_range, right, .. } => {
                let l = self.validate_expression(cur, left, issues);
                let rt = self.validate_expression(cur, right, issues);
                let r = self.check_binary(issues, *operator, *operator_range, l, rt);
                proof {
                    assert(issue_views(issues@) =~= start + checked(*self, cur as int, *e).0 && value_view(r) == checked(
                        *self,
                        cur as int,
                        *e,
                    ).1) by {
                        reveal(checked);
                    }
                }
                r
            },
        };
        r
    }
}

/// The issue of a value given where a type is expected: a use of no value,
/// or a value that cannot convert to the type.
#[verifier::opaque]
pub open spec fn compatible_issues(
    ws: WorkspaceIndex,
    t: Resolution<ValueTypeView>,
    expected: TypeRefView,
    range: TextRange,
    code: SemanticIssueCode,
    action: Seq<u8>,
) -> Seq<SemanticIssueView> {
    match t {
        Resolution::Resolved(ValueTypeView::Void) => seq![void_issue(range)],
        Resolution::Resolved(v) => if type_compatibility_spec(ws, v, expected) == Compatibility::Incompatible {
            seq![issue(range, code, action + value_text(v) + " to ".spec_bytes() + type_text(expected))]
        } else {
            Seq::empty()
        },
        _ => Seq::empty(),
    }
}

/// A declaration that an assignment may write: a variable, property or
/// parameter that is not read-only.
pub open spec fn writable(d: crate::semantic::Declaration) -> bool {
    !d.is_read_only && (d.kind == DeclarationKind::Variable || d.kind == DeclarationKind::Property || d.kind
        == DeclarationKind::Parameter)
}

/// The declaration that an expression denotes, if it is one.
pub open spec fn target_declaration(ws: WorkspaceIndex, cur: int, target: SemanticExpression) -> Resolution<DeclRef> {
    match resolve_spec(ws, cur, target, 0) {
        Resolution::Resolved(ExpressionResolutionView::Declaration(d)) => Resolution::Resolved(d),
        Resolution::Resolved(_) => Resolution::Unsupported,
        other => failure(other),
    }
}

/// The issue that ends the check of an assignment at its target: a
/// compound assignment to an array element, or a target that cannot be
/// written.
#[verifier::opaque]
pub open spec fn target_stop(
    ws: WorkspaceIndex,
    cur: int,
    target: SemanticExpression,
    operator: SemanticAssignmentOperator,
    operator_range: TextRange,
) -> Option<Seq<SemanticIssueView>> {
    if target is Subscript {
        if operator != SemanticAssignmentOperator::Assign {
            Some(
                seq![
                    issue(
                        operator_range,
                        SemanticIssueCode::InvalidCompoundAssignment,
                        "Array elements support only simple '=' assignment".spec_bytes(),
                    ),
                ],
            )
        } else {
            None
        }
    } else {
        match target_declaration(ws, cur, target) {
            Resolution::Resolved(d) => if writable(ws.decl(d)) {
                None
            } else {
                Some(
                    seq![
                        issue(
                            target.spec_range(),
                            SemanticIssueCode::InvalidAssignmentTarget,
                            "'".spec_bytes() + string_bytes(ws.decl(d).name) + "' is not writable".spec_bytes(),
                        ),
                    ],
                )
            },
            Resolution::Unsupported => Some(
                seq![
                    issue(
                        target.spec_range(),
                        SemanticIssueCode::InvalidAssignmentTarget,
                        "Expression is not a writable assignment target".spec_bytes(),
                    ),
                ],
            ),
            _ => None,
        }
    }
}

/// The issues of a compound assignment `t op= v`: the operator must combine
/// the two types, and its result must convert back to `t`.
#[verifier::opaque]
pub open spec fn compound_issues(
    ws: WorkspaceIndex,
    t: TypeRefView,
    operator: SemanticAssignmentOperator,
    operator_range: TextRange,
    value_range: TextRange,
    v: ValueTypeView,
) -> Seq<SemanticIssueView> {
    match binary_result_spec(assignment_binary_spec(operator), ValueTypeView::Known(t), v) {
        None => seq![
            issue(
                operator_range,
                SemanticIssueCode::InvalidCompoundAssignment,
                "Operator '".spec_bytes() + encode_utf8(assignment_text(operator)) + "' cannot combine ".spec_bytes()
                    + type_text(t) + " and ".spec_bytes() + value_text(v),
            ),
        ],
        Some(result) => if type_compatibility_spec(ws, result, t) == Compatibility::Incompatible {
            seq![
                issue(
                    value_range,
                    SemanticIssueCode::IncompatibleAssignment,
                    "Compound assignment produces ".spec_bytes() + value_text(result)
                        + ", which cannot be assigned to ".spec_bytes() + type_text(t),
                ),
            ]
        } else {
            Seq::empty()
        },
    }
}

/// The issues of the value of an assignment whose target may be written.
#[verifier::opaque]
pub open spec fn assigned_value_issues(
    ws: WorkspaceIndex,
    target: Resolution<ValueTypeView>,
    operator: SemanticAssignmentOperator,
    operator_range: TextRange,
    value_range: TextRange,
    value: Resolution<ValueTypeView>,
) -> Seq<SemanticIssueView> {
    match target {
        Resolution::Resolved(ValueTypeView::Known(t)) => if operator == SemanticAssignmentOperator::Assign {
            compatible_issues(ws, value, t, value_range, SemanticIssueCode::IncompatibleAssignment, "Cannot assign ".spec_bytes())
        } else {
            match value {
                Resolution::Resolved(ValueTypeView::Void) => seq![void_issue(value_range)],
                Resolution::Resolved(v) => compound_issues(ws, t, operator, operator_range, value_range, v),
                _ => Seq::empty(),
            }
        },
        _ => if value == Resolution::<ValueTypeView>::Resolved(ValueTypeView::Void) {
            seq![void_issue(value_range)]
        } else {
            Seq::empty()
        },
    }
}

/// The issues of an assignment: those of its target and value, then what
/// ends the check at the target, else those of the assigned value.
pub open spec fn assignment_issues(
    ws: WorkspaceIndex,
    cur: int,
    target: SemanticExpression,
    operator: SemanticAssignmentOperator,
    operator_range: TextRange,
    value: SemanticExpression,
) -> Seq<SemanticIssueView> {
    let t = checked(ws, cur, target);
    let v = checked(ws, cur, value);
    t.0 + v.0 + match target_stop(ws, cur, target, operator, operator_range) {
        Some(stop) => stop,
        None => assigned_value_issues(ws, t.1, operator, operator_range, value.spec_range(), v.1),
    }
}

/// The issues of a return statement against the declared return type.
pub open spec fn return_issues(
    ws: WorkspaceIndex,
    cur: int,
    expected: Option<TypeRef>,
    value: Option<SemanticExpression>,
    range: TextRange,
) -> Seq<SemanticIssueView> {
    match (expected, value) {
        (Some(x), Some(v)) => {
            let c = checked(ws, cur, v);
            c.0 + compatible_issues(ws, c.1, x@, v.spec_range(), SemanticIssueCode::IncompatibleReturn, "Cannot return ".spec_bytes())
        },
        (Some(x), None) => seq![
            issue(
                range,
                SemanticIssueCode::MissingReturnValue,
                "Return statement requires a ".spec_bytes() + type_text(x@) + " value".spec_bytes(),
            ),
        ],
        (None, Some(v)) => checked(ws, cur, v).0.push(
            issue(
                v.spec_range(),
                SemanticIssueCode::UnexpectedReturnValue,
                "This function or event does not return a value".spec_bytes(),
            ),
        ),
        (None, None) => Seq::empty(),
    }
}

/// The issue of a condition whose expression gives no value.
pub open spec fn condition_issues(range: TextRange, t: Resolution<ValueTypeView>) -> Seq<SemanticIssueView> {
    match t {
        Resolution::Resolved(v) => if spec_is_boolean_convertible(v) {
            Seq::empty()
        } else {
            seq![
                issue(
                    range,
                    SemanticIssueCode::InvalidCondition,
                    "Condition requires a value, but expression produces ".spec_bytes() + value_text(v),
                ),
            ]
        },
        _ => Seq::empty(),
    }
}

/// The issues of a statement-level type check.
pub open spec fn type_check_issues(ws: WorkspaceIndex, cur: int, check: SemanticTypeCheck) -> Seq<SemanticIssueView> {
    match check {
        SemanticTypeCheck::Assignment { target, operator, operator_range, value } => assignment_issues(
            ws,
            cur,
            target,
            operator,
            operator_range,
            value,
        ),
        SemanticTypeCheck::Initializer { expected, value } => {
            let c = checked(ws, cur, value);
            c.0 + compatible_issues(
                ws,
                c.1,
                expected@,
                value.spec_range(),
                SemanticIssueCode::IncompatibleAssignment,
                "Cannot initialize ".spec_bytes(),
            )
        },
        SemanticTypeCheck::Return { expected, value, range } => return_issues(ws, cur, expected, value, range),
        SemanticTypeCheck::Condition { value } => {
            let c = checked(ws, cur, value);
            c.0 + condition_issues(value.spec_range(), c.1)
        },
        SemanticTypeCheck::Expression { value } => checked(ws, cur, value).0,
    }
}

impl WorkspaceIndex {
    fn validate_compatible_value(
        &self,
        issues: &mut Vec<SemanticIssue>,
        t: &Resolution<ValueType>,
        expected: &TypeRef,
        range: TextRange,
        code: SemanticIssueCode,
        action: &str,
    )
        ensures
            issue_views(final(issues)@) == issue_views(old(issues)@) + compatible_issues(
                *self,
                value_view(*t),
                expected@,
                range,
                code,
                action.spec_bytes(),
            ),
    {
        proof {
            reveal(compatible_issues);
        }
        if let Resolution::Resolved(v) = t {
            if matches!(v, ValueType::Void) {
                push_void_value(issues, range);
            } else if self.type_compatibility(v, expected) == Compatibility::Incompatible {
                let mut m = owned(action);
                add_value(&mut m, v);
                append_text(&mut m, " to ");
                add_type(&mut m, expected);
                push_issue(issues, range, code, m);
            }
        }
        assert(issue_views(issues@) =~= issue_views(old(issues)@) + compatible_issues(
            *self,
            value_view(*t),
            expected@,
            range,
            code,
            action.spec_bytes(),
        ));
    }
}

impl WorkspaceIndex {
    /// Appends the issue that ends the check of an assignment at its target,
    /// and says whether there was one.
    fn add_target_stop(
        &self,
        cur: usize,
        issues: &mut Vec<SemanticIssue>,
        target: &SemanticExpression,
        operator: SemanticAssignmentOperator,
        operator_range: TextRange,
    ) -> (stopped: bool)
        requires
            cur < self.documents@.len(),
        ensures
            match target_stop(*self, cur as int, *target, operator, operator_range) {
                Some(stop) => stopped && issue_views(final(issues)@) == issue_views(old(issues)@) + stop,
                None => !stopped && final(issues)@ == old(issues)@,
            },
    {
        proof {
            reveal(target_stop);
        }
        if let SemanticExpression::Subscript { .. } = target {
            if !matches!(operator, SemanticAssignmentOperator::Assign) {
                push_issue(
                    issues,
                    operator_range,
                    SemanticIssueCode::InvalidCompoundAssignment,
                    owned("Array elements support only simple '=' assignment"),
                );
                return true;
            }
            return false;
        }
        match self.resolve_expression_declaration_outcome(cur, target) {
            Resolution::Resolved(d) => {
                let decl = &self.documents[d.document].semantic.declarations[d.declaration];
                let kind_ok = matches!(decl.kind, DeclarationKind::Variable) || matches!(
                    decl.kind,
                    DeclarationKind::Property
                ) || matches!(decl.kind, DeclarationKind::Parameter);
                if decl.is_read_only || !kind_ok {
                    let mut m = owned("'");
                    append_text(&mut m, decl.name.as_str());
                    append_text(&mut m, "' is not writable");
                    push_issue(issues, target.range(), SemanticIssueCode::InvalidAssignmentTarget, m);
                    return true;
                }
                false
            },
            Resolution::Unsupported => {
                push_issue(
                    issues,
                    target.range(),
                    SemanticIssueCode::InvalidAssignmentTarget,
                    owned("Expression is not a writable assignment target"),
                );
                true
            },
            _ => false,
        }
    }

    fn add_compound_issues(
        &self,
        issues: &mut Vec<SemanticIssue>,
        t: &TypeRef,
        operator: SemanticAssignmentOperator,
        operator_range: TextRange,
        value_range: TextRange,
        v: &ValueType,
    )
        requires
            operator != SemanticAssignmentOperator::Assign,
        ensures
            issue_views(final(issues)@) == issue_views(old(issues)@) + compound_issues(
                *self,
                t@,
                operator,
                operator_range,
                value_range,
                v@,
            ),
    {
        proof {
            reveal(compound_issues);
        }
        let target = ValueType::Known(t.copy());
        match binary_result(assignment_binary_operator(operator), &target, v) {
            None => {
                let mut m = owned("Operator '");
                append_text(&mut m, assignment_operator_text(operator));
                append_text(&mut m, "' cannot combine ");
                add_type(&mut m, t);
                append_text(&mut m, " and ");
                add_value(&mut m, v);
                push_issue(issues, operator_range, SemanticIssueCode::InvalidCompoundAssignment, m);
            },
            Some(result) => {
                if self.type_compatibility(&result, t) == Compatibility::Incompatible {
                    let mut m = owned("Compound assignment produces ");
                    add_value(&mut m, &result);
                    append_text(&mut m, ", which cannot be assigned to ");
                    add_type(&mut m, t);
                    push_issue(issues, value_range, SemanticIssueCode::IncompatibleAssignment, m);
                } else {
                    assert(issue_views(issues@) =~= issue_views(old(issues)@) + Seq::<SemanticIssueView>::empty());
                }
            },
        }
    }

    fn add_assigned_value_issues(
        &self,
        issues: &mut Vec<SemanticIssue>,
        target: &Resolution<ValueType>,
        operator: SemanticAssignmentOperator,
        operator_range: TextRange,
        value_range: TextRange,
        value: &Resolution<ValueType>,
    )
        ensures
            issue_views(final(issues)@) == issue_views(old(issues)@) + assigned_value_issues(
                *self,
                value_view(*target),
                operator,
                operator_range,
                value_range,
                value_view(*value),
            ),
    {
        proof {
            reveal(assigned_value_issues);
        }
        match target {
            Resolution::Resolved(ValueType::Known(t)) => {
                if matches!(operator, SemanticAssignmentOperator::Assign) {
                    self.validate_compatible_value(
                        issues,
                        value,
                        t,
                        value_range,
                        SemanticIssueCode::IncompatibleAssignment,
                        "Cannot assign ",
                    );
                } else {
                    match value {
                        Resolution::Resolved(ValueType::Void) => push_void_value(issues, value_range),
                        Resolution::Resolved(v) => self.add_compound_issues(
                            issues,
                            t,
                            operator,
                            operator_range,
                            value_range,
                            v,
                        ),
                        _ => {
                            assert(issue_views(issues@) =~= issue_views(old(issues)@) + Seq::<SemanticIssueView>::empty());
                        },
                    }
                }
            },
            _ => {
                if matches!(value, Resolution::Resolved(ValueType::Void)) {
                    push_void_value(issues, value_range);
                } else {
                    assert(issue_views(issues@) =~= issue_views(old(issues)@) + Seq::<SemanticIssueView>::empty());
                }
            },
        }
    }

    /// Checks an assignment (`validate_assignment`).
    pub fn validate_assignment(
        &self,
        cur: usize,
        target: &SemanticExpression,
        operator: SemanticAssignmentOperator,
        operator_range: TextRange,
        value: &SemanticExpression,
        issues: &mut Vec<SemanticIssue>,
    )
        requires
            cur < self.documents@.len(),
        ensures
            issue_views(final(issues)@) == issue_views(old(issues)@) + assignment_issues(
                *self,
                cur as int,
                *target,
                operator,
                operator_range,
                *value,
            ),
    {
        let ghost start = issue_views(issues@);
        let target_type = self.validate_expression(cur, target, issues);
        let value_type = self.validate_expression(cur, value, issues);
        let ghost mid = issue_views(issues@);
        if self.add_target_stop(cur, issues, target, operator, operator_range) {
            assert(issue_views(issues@) =~= start + assignment_issues(
                *self,
                cur as int,
                *target,
                operator,
                operator_range,
                *value,
            ));
            return;
        }
        self.add_assigned_value_issues(issues, &target_type, operator, operator_range, value.range(), &value_type);
        assert(issue_views(issues@) =~= start + assignment_issues(
            *self,
            cur as int,
            *target,
            operator,
            operator_range,
            *value,
        ));
    }

    /// Checks a return statement (`validate_return`).
    pub fn validate_return(
        &self,
        cur: usize,
        expected: &Option<TypeRef>,
        value: &Option<SemanticExpression>,
        range: TextRange,
        issues: &mut Vec<SemanticIssue>,
    )
        requires
            cur < self.documents@.len(),
        ensures
            issue_views(final(issues)@) == issue_views(old(issues)@) + return_issues(
                *self,
                cur as int,
                *expected,
                *value,
                range,
            ),
    {
        let ghost start = issue_views(issues@);
        match (expected, value) {
            (Some(x), Some(v)) => {
                let t = self.validate_expression(cur, v, issues);
                self.validate_compatible_value(issues, &t, x, v.range(), SemanticIssueCode::IncompatibleReturn, "Cannot return ");
            },
            (Some(x), None) => {
                let mut m = owned("Return statement requires a ");
                add_type(&mut m, x);
                append_text(&mut m, " value");
                push_issue(issues, range, SemanticIssueCode::MissingReturnValue, m);
            },
            (None, Some(v)) => {
                let _ = self.validate_expression(cur, v, issues);
                push_issue(
                    issues,
                    v.range(),
                    SemanticIssueCode::UnexpectedReturnValue,
                    owned("This function or event does not return a value"),
                );
            },
            (None, None) => {},
        }
        assert(issue_views(issues@) =~= start + return_issues(*self, cur as int, *expected, *value, range));
    }

    /// Checks a statement-level type check (`validate_type_check`).
    pub fn validate_type_check(&self, cur: usize, check: &SemanticTypeCheck, issues: &mut Vec<SemanticIssue>)
        requires
            cur < self.documents@.len(),
        ensures
            issue_views(final(issues)@) == issue_views(old(issues)@) + type_check_issues(*self, cur as int, *check),
    {
        let ghost start = issue_views(issues@);
        match check {
            SemanticTypeCheck::Assignment { target, operator, operator_range, value } => {
                self.validate_assignment(cur, target, *operator, *operator_range, value, issues);
            },
            SemanticTypeCheck::Initializer { expected, value } => {
                let t = self.validate_expression(cur, value, issues);
                self.validate_compatible_value(
                    issues,
                    &t,
                    expected,
                    value.range(),
                    SemanticIssueCode::IncompatibleAssignment,
                    "Cannot initialize ",
                );
            },
            SemanticTypeCheck::Return { expected, value, range } => {
                self.validate_return(cur, expected, value, *range, issues);
            },
            SemanticTypeCheck::Condition { value } => {
                let t = self.validate_expression(cur, value, issues);
                if let Resolution::Resolved(v) = &t {
                    if !is_boolean_convertible(v) {
                        let mut m = owned("Condition requires a value, but expression produces ");
                        add_value(&mut m, v);
                        push_issue(issues, value.range(), SemanticIssueCode::InvalidCondition, m);
                    }
                }
            },
            SemanticTypeCheck::Expression { value } => {
                let _ = self.validate_expression(cur, value, issues);
            },
        }
        assert(issue_views(issues@) =~= start + type_check_issues(*self, cur as int, *check));
    }
}

/// The decimal digits of a number, as ASCII bytes.
pub open spec fn decimal(n: nat) -> Seq<u8>
    decreases n,
{
    if n < 10 {
        seq![(48 + n) as u8]
    } else {
        decimal(n / 10).push((48 + n % 10) as u8)
    }
}

proof fn lemma_decimal_ascii(n: nat)
    ensures
        crate::text::all_ascii(decimal(n)),
    decreases n,
{
    if n >= 10 {
        lemma_decimal_ascii(n / 10);
    }
}

fn decimal_digits(n: usize) -> (r: Vec<u8>)
    ensures
        r@ == decimal(n as nat),
    decreases n,
{
    if n < 10 {
        let d: u8 = (48 + n) as u8;
        let mut v: Vec<u8> = Vec::new();
        v.push(d);
        assert(v@ =~= decimal(n as nat));
        v
    } else {
        let mut v = decimal_digits(n / 10);
        let d: u8 = (48 + n % 10) as u8;
        v.push(d);
        v
    }
}

fn decimal_digits_wide(n: u64) -> (r: Vec<u8>)
    ensures
        r@ == decimal(n as nat),
    decreases n,
{
    if n < 10 {
        let d: u8 = (48 + n) as u8;
        let mut v: Vec<u8> = Vec::new();
        v.push(d);
        assert(v@ =~= decimal(n as nat));
        v
    } else {
        let mut v = decimal_digits_wide(n / 10);
        let d: u8 = (48 + n % 10) as u8;
        v.push(d);
        v
    }
}

/// Appends a 64-bit number in decimal.
pub(crate) fn add_decimal_wide(message: &mut String, n: u64)
    ensures
        string_bytes(*final(message)) == string_bytes(*old(message)) + decimal(n as nat),
{
    let digits = decimal_digits_wide(n);
    proof {
        lemma_decimal_ascii(n as nat);
    }
    let text = crate::text::string_from_ascii(digits);
    append_text(message, text.as_str());
}

/// Appends a number in decimal.
pub(crate) fn add_decimal(message: &mut String, n: usize)
    ensures
        string_bytes(*final(message)) == string_bytes(*old(message)) + decimal(n as nat),
{
    let digits = decimal_digits(n);
    proof {
        lemma_decimal_ascii(n as nat);
    }
    let text = crate::text::string_from_ascii(digits);
    append_text(message, text.as_str());
}

/// Whether two parameters share a name, ignoring case.
pub open spec fn has_duplicate_parameter(params: Seq<crate::semantic::ParameterView>) -> bool {
    exists|i: int, j: int|
        0 <= i < j < params.len() && crate::text::same_ignoring_case(#[trigger] params[i].name, #[trigger] params[j].name)
}

/// The first parameter from `i` on named `name`, ignoring case; the count
/// of parameters when there is none.
pub open spec fn parameter_named(params: Seq<crate::semantic::ParameterView>, name: Seq<u8>, i: int) -> int
    decreases params.len() - i,
{
    if i < 0 || i >= params.len() {
        params.len() as int
    } else if crate::text::same_ignoring_case(params[i].name, name) {
        i
    } else {
        parameter_named(params, name, i + 1)
    }
}

/// The first unbound position from `i` on; the count when all are bound.
pub open spec fn first_unbound(bound: Seq<bool>, i: int) -> int
    decreases bound.len() - i,
{
    if i < 0 || i >= bound.len() {
        bound.len() as int
    } else if !bound[i] {
        i
    } else {
        first_unbound(bound, i + 1)
    }
}

/// What binding the arguments has found so far: which parameters are
/// bound, where the next positional argument goes, the first argument too
/// many, and the issues.
pub struct Binding {
    pub bound: Seq<bool>,
    pub next: int,
    pub extra: Option<TextRange>,
    pub issues: Seq<SemanticIssueView>,
}

/// Binds one argument: a named one to the parameter of its name, a
/// positional one to the next unbound parameter.
pub open spec fn bind_argument(
    callee: Seq<u8>,
    params: Seq<crate::semantic::ParameterView>,
    st: Binding,
    a: crate::semantic::SemanticCallArgument,
) -> Binding {
    match a.name {
        Some(n) => {
            let name = string_bytes(n);
            let p = parameter_named(params, name, 0);
            let at = match a.name_range {
                Some(r) => r,
                None => a.range,
            };
            if p >= params.len() {
                Binding {
                    issues: st.issues.push(
                        issue(
                            at,
                            SemanticIssueCode::UnknownNamedArgument,
                            "Unknown named argument '".spec_bytes() + name + "' for '".spec_bytes() + callee + "'".spec_bytes(),
                        ),
                    ),
                    ..st
                }
            } else if st.bound[p] {
                Binding {
                    issues: st.issues.push(
                        issue(
                            at,
                            SemanticIssueCode::DuplicateNamedArgument,
                            "Duplicate argument for parameter '".spec_bytes() + name + "'".spec_bytes(),
                        ),
                    ),
                    ..st
                }
            } else {
                Binding { bound: st.bound.update(p, true), ..st }
            }
        },
        None => {
            let q = first_unbound(st.bound, st.next);
            if q >= st.bound.len() {
                Binding {
                    next: q,
                    extra: match st.extra {
                        Some(r) => Some(r),
                        None => Some(a.range),
                    },
                    ..st
                }
            } else {
                Binding { bound: st.bound.update(q, true), next: q + 1, ..st }
            }
        },
    }
}

/// The binding after the first `k` arguments.
pub open spec fn bind_upto(
    callee: Seq<u8>,
    params: Seq<crate::semantic::ParameterView>,
    args: Seq<crate::semantic::SemanticCallArgument>,
    k: int,
) -> Binding
    decreases k,
{
    if k <= 0 {
        Binding { bound: Seq::new(params.len(), |i: int| false), next: 0, extra: None, issues: Seq::empty() }
    } else {
        bind_argument(callee, params, bind_upto(callee, params, args, k - 1), args[k - 1])
    }
}

/// The names of the first `k` parameters that are neither bound nor have a default.
pub open spec fn missing_names(params: Seq<crate::semantic::ParameterView>, bound: Seq<bool>, k: int) -> Seq<Seq<u8>>
    decreases k,
{
    if k <= 0 {
        Seq::empty()
    } else if !bound[k - 1] && !params[k - 1].has_default {
        missing_names(params, bound, k - 1).push(params[k - 1].name)
    } else {
        missing_names(params, bound, k - 1)
    }
}

/// Names joined by `, `.
pub open spec fn joined(names: Seq<Seq<u8>>) -> Seq<u8>
    decreases names.len(),
{
    if names.len() == 0 {
        Seq::empty()
    } else if names.len() == 1 {
        names[0]
    } else {
        joined(names.drop_last()) + ", ".spec_bytes() + names.last()
    }
}

/// The issues of a call's arguments against the callee's parameters: none
/// when two parameters share a name; else those of binding each argument,
/// then arguments too many, then the required parameters left unbound.
pub open spec fn arguments_issues(callee: crate::semantic::DeclarationView, call: crate::semantic::SemanticCallSite) -> Seq<
    SemanticIssueView,
> {
    let params = callee.parameters;
    if has_duplicate_parameter(params) {
        Seq::empty()
    } else {
        let st = bind_upto(callee.name, params, call.arguments@, call.arguments@.len() as int);
        let extra = match st.extra {
            Some(r) => seq![
                issue(
                    r,
                    SemanticIssueCode::TooManyArguments,
                    "Too many arguments for '".spec_bytes() + callee.name + "': expected at most ".spec_bytes()
                        + decimal(params.len()),
                ),
            ],
            None => Seq::empty(),
        };
        let missing = missing_names(params, st.bound, params.len() as int);
        let required = if missing.len() == 0 {
            Seq::empty()
        } else {
            seq![
                issue(
                    call.callee_range,
                    SemanticIssueCode::MissingRequiredArgument,
                    "Missing required argument".spec_bytes() + (if missing.len() == 1 {
                        Seq::<u8>::empty()
                    } else {
                        "s".spec_bytes()
                    }) + " for '".spec_bytes() + callee.name + "': ".spec_bytes() + joined(missing),
                ),
            ]
        };
        st.issues + extra + required
    }
}

fn duplicate_parameter(params: &Vec<crate::semantic::Parameter>) -> (r: bool)
    ensures
        r == has_duplicate_parameter(params@.map_values(|p: crate::semantic::Parameter| p@)),
{
    let ghost v = params@.map_values(|p: crate::semantic::Parameter| p@);
    let mut i: usize = 0;
    while i < params.len()
        invariant
            0 <= i <= params@.len(),
            v == params@.map_values(|p: crate::semantic::Parameter| p@),
            forall|a: int, b: int|
                0 <= a < i && a < b < v.len() ==> !crate::text::same_ignoring_case(#[trigger] v[a].name, #[trigger] v[b].name),
        decreases params@.len() - i,
    {
        let mut j: usize = i + 1;
        while j < params.len()
            invariant
                0 <= i < params@.len(),
                i + 1 <= j <= params@.len(),
                v == params@.map_values(|p: crate::semantic::Parameter| p@),
                forall|a: int, b: int|
                    0 <= a < i && a < b < v.len() ==> !crate::text::same_ignoring_case(#[trigger] v[a].name, #[trigger] v[b].name),
                forall|b: int| i < b < j ==> !crate::text::same_ignoring_case(v[i as int].name, #[trigger] v[b].name),
            decreases params@.len() - j,
        {
            if crate::semantic::strings_match(&params[i].name, &params[j].name) {
                assert(crate::text::same_ignoring_case(v[i as int].name, v[j as int].name));
                return true;
            }
            j = j + 1;
        }
        i = i + 1;
    }
    false
}

fn parameter_position(params: &Vec<crate::semantic::Parameter>, name: &String) -> (r: usize)
    ensures
        r as int == parameter_named(params@.map_values(|p: crate::semantic::Parameter| p@), string_bytes(*name), 0),
{
    let ghost v = params@.map_values(|p: crate::semantic::Parameter| p@);
    let mut i: usize = 0;
    while i < params.len()
        invariant
            0 <= i <= params@.len(),
            v == params@.map_values(|p: crate::semantic::Parameter| p@),
            parameter_named(v, string_bytes(*name), i as int) == parameter_named(v, string_bytes(*name), 0),
        decreases params@.len() - i,
    {
        if crate::semantic::strings_match(&params[i].name, name) {
            return i;
        }
        i = i + 1;
    }
    i
}

proof fn lemma_joined_push(names: Seq<Seq<u8>>, x: Seq<u8>)
    ensures
        joined(names.push(x)) == if names.len() == 0 {
            x
        } else {
            joined(names) + ", ".spec_bytes() + x
        },
{
    assert(names.push(x).drop_last() =~= names);
}

/// The names of the required parameters left unbound, joined, and their count.
fn missing_parameters(params: &Vec<crate::semantic::Parameter>, bound: &Vec<bool>) -> (r: (String, usize))
    requires
        bound@.len() == params@.len(),
    ensures
        string_bytes(r.0) == joined(
            missing_names(params@.map_values(|p: crate::semantic::Parameter| p@), bound@, params@.len() as int),
        ),
        r.1 == missing_names(params@.map_values(|p: crate::semantic::Parameter| p@), bound@, params@.len() as int).len(),
{
    let ghost v = params@.map_values(|p: crate::semantic::Parameter| p@);
    let mut text = String::new();
    let mut count: usize = 0;
    let mut i: usize = 0;
    assert(string_bytes(text) =~= Seq::<u8>::empty());
    while i < params.len()
        invariant
            0 <= i <= params@.len(),
            bound@.len() == params@.len(),
            v == params@.map_values(|p: crate::semantic::Parameter| p@),
            string_bytes(text) == joined(missing_names(v, bound@, i as int)),
            count == missing_names(v, bound@, i as int).len(),
            count <= i,
        decreases params@.len() - i,
    {
        if !bound[i] && !params[i].has_default {
            proof {
                lemma_joined_push(missing_names(v, bound@, i as int), v[i as int].name);
            }
            if count > 0 {
                append_text(&mut text, ", ");
            }
            append_text(&mut text, params[i].name.as_str());
            count = count + 1;
        }
        i = i + 1;
    }
    (text, count)
}

/// Binds one argument (one step of `validate_arguments`).
fn bind_one(
    callee: &crate::semantic::Declaration,
    a: &crate::semantic::SemanticCallArgument,
    bound: &mut Vec<bool>,
    next: &mut usize,
    extra: &mut Option<TextRange>,
    issues: &mut Vec<SemanticIssue>,
)
    requires
        old(bound)@.len() == callee.parameters@.len(),
        *old(next) <= old(bound)@.len(),
    ensures
        ({
            let st = bind_argument(
                callee@.name,
                callee@.parameters,
                Binding {
                    bound: old(bound)@,
                    next: *old(next) as int,
                    extra: *old(extra),
                    issues: issue_views(old(issues)@),
                },
                *a,
            );
            &&& final(bound)@ == st.bound
            &&& *final(next) as int == st.next
            &&& *final(extra) == st.extra
            &&& issue_views(final(issues)@) == st.issues
        }),
        final(bound)@.len() == old(bound)@.len(),
        *final(next) <= final(bound)@.len(),
{
    let n = bound.len();
    match &a.name {
        Some(name) => {
            let p = parameter_position(&callee.parameters, name);
            let at = match a.name_range {
                Some(r) => r,
                None => a.range,
            };
            if p >= n {
                let mut m = owned("Unknown named argument '");
                append_text(&mut m, name.as_str());
                append_text(&mut m, "' for '");
                append_text(&mut m, callee.name.as_str());
                append_text(&mut m, "'");
                push_issue(issues, at, SemanticIssueCode::UnknownNamedArgument, m);
            } else if bound[p] {
                let mut m = owned("Duplicate argument for parameter '");
                append_text(&mut m, name.as_str());
                append_text(&mut m, "'");
                push_issue(issues, at, SemanticIssueCode::DuplicateNamedArgument, m);
            } else {
                bound.set(p, true);
            }
        },
        None => {
            let ghost from = *next as int;
            while *next < n && bound[*next]
                invariant
                    n == bound@.len(),
                    from <= *next <= n,
                    first_unbound(bound@, *next as int) == first_unbound(bound@, from),
                decreases n - *next,
            {
                *next = *next + 1;
            }
            if *next == n {
                if extra.is_none() {
                    *extra = Some(a.range);
                }
            } else {
                bound.set(*next, true);
                *next = *next + 1;
            }
        },
    }
}

/// Checks a call's arguments against the callee's parameters (`validate_arguments`).
pub fn validate_arguments(
    callee: &crate::semantic::Declaration,
    call: &crate::semantic::SemanticCallSite,
    issues: &mut Vec<SemanticIssue>,
)
    ensures
        issue_views(final(issues)@) == issue_views(old(issues)@) + arguments_issues(callee@, *call),
{
    let ghost start = issue_views(issues@);
    let ghost params = callee@.parameters;
    if duplicate_parameter(&callee.parameters) {
        assert(issue_views(issues@) =~= start + arguments_issues(callee@, *call));
        return;
    }
    let n = callee.parameters.len();
    let mut bound: Vec<bool> = Vec::new();
    while bound.len() < n
        invariant
            bound@.len() <= n,
            forall|j: int| 0 <= j < bound@.len() ==> !bound@[j],
        decreases n - bound@.len(),
    {
        bound.push(false);
    }
    let mut next: usize = 0;
    let mut extra: Option<TextRange> = None;
    let mut found: Vec<SemanticIssue> = Vec::new();
    assert(bound@ =~= Seq::new(params.len(), |i: int| false));
    assert(issue_views(found@) =~= Seq::<SemanticIssueView>::empty());
    let mut k: usize = 0;
    while k < call.arguments.len()
        invariant
            n == callee.parameters@.len(),
            params == callee@.parameters,
            0 <= k <= call.arguments@.len(),
            bound@.len() == n,
            next <= n,
            ({
                let st = bind_upto(callee@.name, params, call.arguments@, k as int);
                &&& bound@ == st.bound
                &&& next as int == st.next
                &&& extra == st.extra
                &&& issue_views(found@) == st.issues
            }),
        decreases call.arguments@.len() - k,
    {
        bind_one(callee, &call.arguments[k], &mut bound, &mut next, &mut extra, &mut found);
        k = k + 1;
    }
    let ghost st = bind_upto(callee@.name, params, call.arguments@, call.arguments@.len() as int);
    if let Some(r) = extra {
        let mut m = owned("Too many arguments for '");
        append_text(&mut m, callee.name.as_str());
        append_text(&mut m, "': expected at most ");
        add_decimal(&mut m, n);
        push_issue(&mut found, r, SemanticIssueCode::TooManyArguments, m);
    }
    let (names, count) = missing_parameters(&callee.parameters, &bound);
    if count > 0 {
        let mut m = owned("Missing required argument");
        if count != 1 {
            append_text(&mut m, "s");
        } else {
            assert(string_bytes(m) =~= string_bytes(m) + Seq::<u8>::empty());
        }
        append_text(&mut m, " for '");
        append_text(&mut m, callee.name.as_str());
        append_text(&mut m, "': ");
        append_text(&mut m, names.as_str());
        push_issue(&mut found, call.callee_range, SemanticIssueCode::MissingRequiredArgument, m);
    }
    assert(issue_views(found@) =~= arguments_issues(callee@, *call));
    let ghost before = issue_views(issues@);
    issues.append(&mut found);
    assert(issue_views(issues@) =~= before + arguments_issues(callee@, *call));
}

/// The codes of an ambiguity.
pub open spec fn is_ambiguity(code: SemanticIssueCode) -> bool {
    code == SemanticIssueCode::AmbiguousType || code == SemanticIssueCode::AmbiguousMember || code
        == SemanticIssueCode::AmbiguousReference || code == SemanticIssueCode::AmbiguousCallTarget
}

/// Whether an ambiguity was already reported at a range.
pub open spec fn ambiguity_reported(issues: Seq<SemanticIssueView>, range: TextRange) -> bool {
    exists|i: int| 0 <= i < issues.len() && #[trigger] issues[i].range == range && is_ambiguity(issues[i].code)
}

/// The issues of a complete call, after the issues found so far: an
/// ambiguous target (once per place), a target that is not a function or an
/// event, or else those of its arguments.
pub open spec fn call_issues(
    ws: WorkspaceIndex,
    cur: int,
    prior: Seq<SemanticIssueView>,
    call: crate::semantic::SemanticCallSite,
) -> Seq<SemanticIssueView> {
    if !call.complete {
        Seq::empty()
    } else {
        match crate::navigation::at_spec(ws, cur, call.callee_range.start) {
            Resolution::Resolved(c) => if ws.decl(c).kind == DeclarationKind::Function || ws.decl(c).kind
                == DeclarationKind::Event {
                arguments_issues(ws.decl(c)@, call)
            } else {
                seq![
                    issue(
                        call.callee_range,
                        SemanticIssueCode::InvalidCallTarget,
                        "'".spec_bytes() + string_bytes(ws.decl(c).name) + "' is not callable".spec_bytes(),
                    ),
                ]
            },
            Resolution::Ambiguous => if ambiguity_reported(prior, call.callee_range) {
                Seq::empty()
            } else {
                seq![issue(call.callee_range, SemanticIssueCode::AmbiguousCallTarget, "Call target is ambiguous".spec_bytes())]
            },
            _ => Seq::empty(),
        }
    }
}

/// The issue of an identifier occurrence that does not resolve, or
/// resolves to more than one declaration; labels of named arguments and
/// primitive type names are not checked.
pub open spec fn occurrence_issues(ws: WorkspaceIndex, cur: int, o: crate::semantic::SemanticOccurrence) -> Seq<
    SemanticIssueView,
> {
    let name = string_bytes(o.name);
    let outcome = crate::navigation::occurrence_outcome_spec(ws, cur, o);
    let quoted = " '".spec_bytes() + name + "'".spec_bytes();
    if o.kind == crate::semantic::SemanticOccurrenceKind::NamedArgument {
        Seq::empty()
    } else if o.kind == crate::semantic::SemanticOccurrenceKind::Type || o.kind
        == crate::semantic::SemanticOccurrenceKind::Import {
        if spec_is_primitive_name(name) {
            Seq::empty()
        } else if outcome is Missing {
            seq![issue(o.selection_range, SemanticIssueCode::UnresolvedType, "Unresolved type".spec_bytes() + quoted)]
        } else if outcome is Ambiguous {
            seq![issue(o.selection_range, SemanticIssueCode::AmbiguousType, "Ambiguous type".spec_bytes() + quoted)]
        } else {
            Seq::empty()
        }
    } else {
        let member = o.kind == crate::semantic::SemanticOccurrenceKind::Member;
        if outcome is Missing {
            seq![
                if member {
                    issue(o.selection_range, SemanticIssueCode::UnresolvedMember, "Unresolved member".spec_bytes() + quoted)
                } else {
                    issue(
                        o.selection_range,
                        SemanticIssueCode::UnresolvedReference,
                        "Unresolved reference".spec_bytes() + quoted,
                    )
                },
            ]
        } else if outcome is Ambiguous {
            seq![
                if member {
                    issue(o.selection_range, SemanticIssueCode::AmbiguousMember, "Ambiguous member".spec_bytes() + quoted)
                } else {
                    issue(
                        o.selection_range,
                        SemanticIssueCode::AmbiguousReference,
                        "Ambiguous reference".spec_bytes() + quoted,
                    )
                },
            ]
        } else {
            Seq::empty()
        }
    }
}

/// The issues of the first `k` occurrences, in order.
pub open spec fn occurrences_issues(ws: WorkspaceIndex, cur: int, os: Seq<crate::semantic::SemanticOccurrence>, k: int) -> Seq<
    SemanticIssueView,
>
    decreases k,
{
    if k <= 0 || k > os.len() {
        Seq::empty()
    } else {
        occurrences_issues(ws, cur, os, k - 1) + occurrence_issues(ws, cur, os[k - 1])
    }
}

/// The issues after those of the first `k` calls, starting from `start`.
pub open spec fn after_calls(
    ws: WorkspaceIndex,
    cur: int,
    start: Seq<SemanticIssueView>,
    calls: Seq<crate::semantic::SemanticCallSite>,
    k: int,
) -> Seq<SemanticIssueView>
    decreases k,
{
    if k <= 0 || k > calls.len() {
        start
    } else {
        let before = after_calls(ws, cur, start, calls, k - 1);
        before + call_issues(ws, cur, before, calls[k - 1])
    }
}

/// The issues of the first `k` type checks, in order.
pub open spec fn checks_issues(ws: WorkspaceIndex, cur: int, cs: Seq<SemanticTypeCheck>, k: int) -> Seq<SemanticIssueView>
    decreases k,
{
    if k <= 0 || k > cs.len() {
        Seq::empty()
    } else {
        checks_issues(ws, cur, cs, k - 1) + type_check_issues(ws, cur, cs[k - 1])
    }
}

/// The semantic issues of a document in the order the checks find them:
/// its occurrences, its calls, then its type checks.
pub open spec fn document_issues(ws: WorkspaceIndex, cur: int) -> Seq<SemanticIssueView> {
    let doc = ws.documents@[cur].semantic;
    let occ = occurrences_issues(ws, cur, doc.occurrences@, doc.occurrences@.len() as int);
    after_calls(ws, cur, occ, doc.call_sites@, doc.call_sites@.len() as int) + checks_issues(
        ws,
        cur,
        doc.type_checks@,
        doc.type_checks@.len() as int,
    )
}

fn ambiguity_found(issues: &Vec<SemanticIssue>, range: TextRange) -> (r: bool)
    ensures
        r == ambiguity_reported(issue_views(issues@), range),
{
    let ghost v = issue_views(issues@);
    let mut i: usize = 0;
    while i < issues.len()
        invariant
            0 <= i <= issues@.len(),
            v == issue_views(issues@),
            forall|j: int| 0 <= j < i ==> !(#[trigger] v[j].range == range && is_ambiguity(v[j].code)),
        decreases issues@.len() - i,
    {
        let code = issues[i].code;
        if issues[i].range == range && (code == SemanticIssueCode::AmbiguousType || code
            == SemanticIssueCode::AmbiguousMember || code == SemanticIssueCode::AmbiguousReference || code
            == SemanticIssueCode::AmbiguousCallTarget) {
            assert(v[i as int].range == range && is_ambiguity(v[i as int].code));
            return true;
        }
        i = i + 1;
    }
    false
}

impl WorkspaceIndex {
    /// Checks a call (`validate_call`).
    pub fn validate_call(&self, cur: usize, call: &crate::semantic::SemanticCallSite, issues: &mut Vec<SemanticIssue>)
        requires
            cur < self.documents@.len(),
        ensures
            issue_views(final(issues)@) == issue_views(old(issues)@) + call_issues(
                *self,
                cur as int,
                issue_views(old(issues)@),
                *call,
            ),
    {
        let ghost start = issue_views(issues@);
        if !call.is_complete() {
            assert(issue_views(issues@) =~= start + Seq::<SemanticIssueView>::empty());
            return;
        }
        match self.resolve_at_outcome(cur, call.callee_range.start) {
            Resolution::Resolved(c) => {
                let decl = &self.documents[c.document].semantic.declarations[c.declaration];
                if decl.kind == DeclarationKind::Function || decl.kind == DeclarationKind::Event {
                    validate_arguments(decl, call, issues);
                } else {
                    let mut m = owned("'");
                    append_text(&mut m, decl.name.as_str());
                    append_text(&mut m, "' is not callable");
                    push_issue(issues, call.callee_range, SemanticIssueCode::InvalidCallTarget, m);
                }
            },
            Resolution::Ambiguous => {
                if !ambiguity_found(issues, call.callee_range) {
                    push_issue(
                        issues,
                        call.callee_range,
                        SemanticIssueCode::AmbiguousCallTarget,
                        owned("Call target is ambiguous"),
                    );
                } else {
                    assert(issue_views(issues@) =~= start + Seq::<SemanticIssueView>::empty());
                }
            },
            _ => {
                assert(issue_views(issues@) =~= start + Seq::<SemanticIssueView>::empty());
            },
        }
    }

    fn check_occurrence(&self, cur: usize, o: &crate::semantic::SemanticOccurrence, issues: &mut Vec<SemanticIssue>)
        requires
            cur < self.documents@.len(),
        ensures
            issue_views(final(issues)@) == issue_views(old(issues)@) + occurrence_issues(*self, cur as int, *o),
    {
        let ghost start = issue_views(issues@);
        if o.kind == crate::semantic::SemanticOccurrenceKind::NamedArgument {
            assert(issue_views(issues@) =~= start + Seq::<SemanticIssueView>::empty());
            return;
        }
        let type_like = o.kind == crate::semantic::SemanticOccurrenceKind::Type || o.kind
            == crate::semantic::SemanticOccurrenceKind::Import;
        if type_like && crate::type_system::is_primitive_name(&o.name) {
            assert(issue_views(issues@) =~= start + Seq::<SemanticIssueView>::empty());
            return;
        }
        let outcome = self.resolve_occurrence_outcome(cur, o);
        let missing = matches!(outcome, Resolution::Missing);
        let ambiguous = matches!(outcome, Resolution::Ambiguous);
        if !missing && !ambiguous {
            assert(issue_views(issues@) =~= start + Seq::<SemanticIssueView>::empty());
            return;
        }
        let member = o.kind == crate::semantic::SemanticOccurrenceKind::Member;
        let (code, head) = if type_like {
            if missing {
                (SemanticIssueCode::UnresolvedType, "Unresolved type")
            } else {
                (SemanticIssueCode::AmbiguousType, "Ambiguous type")
            }
        } else if member {
            if missing {
                (SemanticIssueCode::UnresolvedMember, "Unresolved member")
            } else {
                (SemanticIssueCode::AmbiguousMember, "Ambiguous member")
            }
        } else {
            if missing {
                (SemanticIssueCode::UnresolvedReference, "Unresolved reference")
            } else {
                (SemanticIssueCode::AmbiguousReference, "Ambiguous reference")
            }
        };
        let mut m = owned(head);
        let ghost h = string_bytes(m);
        append_text(&mut m, " '");
        append_text(&mut m, o.name.as_str());
        append_text(&mut m, "'");
        assert(string_bytes(m) =~= h + (" '".spec_bytes() + string_bytes(o.name) + "'".spec_bytes()));
        push_issue(issues, o.selection_range, code, m);
    }

    /// The semantic issues of a document in the order the checks find them
    /// (the first part of `semantic_diagnostics`).
    pub fn gather_issues(&self, cur: usize) -> (r: Vec<SemanticIssue>)
        requires
            cur < self.documents@.len(),
        ensures
            issue_views(r@) == document_issues(*self, cur as int),
    {
        let doc = &self.documents[cur].semantic;
        let mut issues: Vec<SemanticIssue> = Vec::new();
        let mut i: usize = 0;
        assert(issue_views(issues@) =~= occurrences_issues(*self, cur as int, doc.occurrences@, 0));
        while i < doc.occurrences.len()
            invariant
                cur < self.documents@.len(),
                *doc == self.documents@[cur as int].semantic,
                0 <= i <= doc.occurrences@.len(),
                issue_views(issues@) == occurrences_issues(*self, cur as int, doc.occurrences@, i as int),
            decreases doc.occurrences@.len() - i,
        {
            self.check_occurrence(cur, &doc.occurrences[i], &mut issues);
            i = i + 1;
        }
        let ghost occ = issue_views(issues@);
        let mut k: usize = 0;
        while k < doc.call_sites.len()
            invariant
                cur < self.documents@.len(),
                *doc == self.documents@[cur as int].semantic,
                0 <= k <= doc.call_sites@.len(),
                issue_views(issues@) == after_calls(*self, cur as int, occ, doc.call_sites@, k as int),
            decreases doc.call_sites@.len() - k,
        {
            self.validate_call(cur, &doc.call_sites[k], &mut issues);
            k = k + 1;
        }
        let ghost calls = issue_views(issues@);
        let mut j: usize = 0;
        assert(calls =~= calls + checks_issues(*self, cur as int, doc.type_checks@, 0));
        while j < doc.type_checks.len()
            invariant
                cur < self.documents@.len(),
                *doc == self.documents@[cur as int].semantic,
                0 <= j <= doc.type_checks@.len(),
                issue_views(issues@) == calls + checks_issues(*self, cur as int, doc.type_checks@, j as int),
            decreases doc.type_checks@.len() - j,
        {
            self.validate_type_check(cur, &doc.type_checks[j], &mut issues);
            assert(issue_views(issues@) =~= calls + checks_issues(*self, cur as int, doc.type_checks@, j + 1));
            j = j + 1;
        }
        issues
    }
}

} // verus!
