//! Expressions and type references read from syntax nodes.
use vstd::prelude::*;
use vstd::utf8::*;
use vstd::string::StringSliceAdditionalSpecFns;
use crate::line_index::{LineIndex, line_starts_of};
use crate::semantic::{
    SemanticBinaryOperator, SemanticExpression, SemanticLiteralKind, SemanticUnaryOperator,
    TypeRef, TypeRefView,
};
use crate::syntax::{
    NodeKind, SyntaxNode, field_at, field_child, field_position, first_named_position, has_text,
    named_index, node_range, node_text, range_of, text, text_is,
};
use crate::text::{lemma_cut_at_ascii, string_bytes, string_from_valid_range};

verus! {

broadcast use vstd::utf8::group_utf8_lib;

/// Text without any trailing `[]` pairs.
pub open spec fn trim_brackets(s: Seq<u8>) -> Seq<u8>
    decreases s.len(),
{
    if s.len() >= 2 && s[s.len() - 2] == 91 && s[s.len() - 1] == 93 {
        trim_brackets(s.subrange(0, s.len() - 2))
    } else {
        s
    }
}

/// The type that a type node names: the text of its `name` field, else its
/// own text without trailing `[]`; an array when it has an `array` field.
pub open spec fn type_ref_view(node: SyntaxNode, b: Seq<u8>) -> Option<TypeRefView> {
    let named = match field_child(node, "name") {
        Some(c) => node_text(c, b),
        None => None,
    };
    let name = match named {
        Some(n) => Some(n),
        None => match node_text(node, b) {
            Some(t) => Some(trim_brackets(t)),
            None => None,
        },
    };
    match name {
        Some(n) => Some(TypeRefView { name: n, array: field_child(node, "array") is Some }),
        None => None,
    }
}

proof fn lemma_trim_brackets(s: Seq<u8>)
    ensures
        trim_brackets(s) == s.subrange(0, trim_brackets(s).len() as int),
        trim_brackets(s).len() <= s.len(),
        trim_brackets(s).len() == s.len() || s[trim_brackets(s).len() as int] == 91,
    decreases s.len(),
{
    if s.len() >= 2 && s[s.len() - 2] == 91 && s[s.len() - 1] == 93 {
        let t = s.subrange(0, s.len() - 2);
        lemma_trim_brackets(t);
        assert(t.subrange(0, trim_brackets(t).len() as int) =~= s.subrange(
            0,
            trim_brackets(t).len() as int,
        ));
        if trim_brackets(t).len() < t.len() {
            assert(t[trim_brackets(t).len() as int] == s[trim_brackets(t).len() as int]);
        }
    } else {
        assert(s.subrange(0, s.len() as int) =~= s);
    }
}

/// Reads the type named by a type node.
pub fn type_ref(node: &SyntaxNode, source: &str) -> (r: Option<TypeRef>)
    requires
        node.fits(source.spec_bytes().len() as int),
    ensures
        r.is_some() == type_ref_view(*node, source.spec_bytes()).is_some(),
        r matches Some(t) ==> t@ == type_ref_view(*node, source.spec_bytes()).unwrap(),
{
    let ghost b = source.spec_bytes();
    let k = field_position(node, "name");
    let named = if k < node.children.len() {
        assert(node.children@[k as int].fits(b.len() as int));
        text(&node.children[k], source)
    } else {
        None
    };
    let name = match named {
        Some(n) => n,
        None => {
            let whole = match text(node, source) {
                Some(t) => t,
                None => return None,
            };
            let whole_text = whole.as_str();
            let bytes = whole_text.as_bytes();
            let ghost t = bytes@;
            let mut end = bytes.len();
            assert(t.subrange(0, t.len() as int) =~= t);
            while end >= 2 && bytes[end - 2] == 91 && bytes[end - 1] == 93
                invariant
                    end <= t.len(),
                    t == bytes@,
                    trim_brackets(t.subrange(0, end as int)) == trim_brackets(t),
                decreases end,
            {
                proof {
                    let u = t.subrange(0, end as int);
                    assert(u.subrange(0, u.len() - 2) =~= t.subrange(0, end - 2));
                }
                end = end - 2;
            }
            proof {
                let u = t.subrange(0, end as int);
                assert(trim_brackets(u) == u);
                lemma_trim_brackets(t);
                crate::text::lemma_str_valid(whole_text);
                lemma_cut_at_ascii(t, end as int);
            }
            string_from_valid_range(bytes, 0, end)
        },
    };
    let array = field_position(node, "array") < node.children.len();
    Some(TypeRef { name, array })
}

/// Whether a node is an expression that `from_node` reads.
pub open spec fn has_expression(node: SyntaxNode, b: Seq<u8>) -> bool
    decreases node, 0int,
{
    let cs = node.children@;
    if (node.kind == NodeKind::Identifier) || (node.kind == NodeKind::QualifiedIdentifier) {
        node_text(node, b) is Some
    } else if (node.kind == NodeKind::MemberExpression) {
        let o = field_at(node, "object");
        let m = field_at(node, "member");
        0 <= o < cs.len() && 0 <= m < cs.len() && has_expression(cs[o], b) && node_text(cs[m], b) is Some
    } else if (node.kind == NodeKind::CallExpression) {
        let f = field_at(node, "function");
        0 <= f < cs.len() && has_expression(cs[f], b)
    } else if (node.kind == NodeKind::SubscriptExpression) {
        let a = field_at(node, "array");
        let i = field_at(node, "index");
        0 <= a < cs.len() && 0 <= i < cs.len() && has_expression(cs[a], b) && has_expression(cs[i], b)
    } else if (node.kind == NodeKind::CastExpression) || (node.kind == NodeKind::TypeTestExpression) {
        let v = field_at(node, "value");
        let t = field_at(node, "type");
        0 <= v < cs.len() && 0 <= t < cs.len() && has_expression(cs[v], b) && type_ref_view(cs[t], b) is Some
    } else if (node.kind == NodeKind::ParenthesizedExpression) {
        let k = named_index(cs, 0);
        0 <= k < cs.len() && has_expression(cs[k], b)
    } else if (node.kind == NodeKind::NewExpression) {
        let t = field_at(node, "type");
        0 <= t < cs.len() && node_text(cs[t], b) is Some
    } else if (node.kind == NodeKind::Boolean) || (node.kind == NodeKind::Integer) || (node.kind == NodeKind::Float)
        || (node.kind == NodeKind::StringLiteral) || (node.kind == NodeKind::NoneLiteral) {
        true
    } else if (node.kind == NodeKind::UnaryExpression) {
        let o = field_at(node, "operator");
        let a = field_at(node, "argument");
        0 <= o < cs.len() && (text_is(cs[o], b, "!") || text_is(cs[o], b, "-")) && 0 <= a
            < cs.len() && has_expression(cs[a], b)
    } else if (node.kind == NodeKind::BinaryExpression) {
        let l = field_at(node, "left");
        let o = field_at(node, "operator");
        let r = field_at(node, "right");
        0 <= l < cs.len() && has_expression(cs[l], b) && 0 <= o < cs.len() && binary_operator_of(
            cs[o],
            b,
        ) is Some && 0 <= r < cs.len() && has_expression(cs[r], b)
    } else {
        false
    }
}

/// The binary operator that an operator node spells.
pub open spec fn binary_operator_of(node: SyntaxNode, b: Seq<u8>) -> Option<SemanticBinaryOperator> {
    if text_is(node, b, "||") {
        Some(SemanticBinaryOperator::LogicalOr)
    } else if text_is(node, b, "&&") {
        Some(SemanticBinaryOperator::LogicalAnd)
    } else if text_is(node, b, "==") {
        Some(SemanticBinaryOperator::Equal)
    } else if text_is(node, b, "!=") {
        Some(SemanticBinaryOperator::NotEqual)
    } else if text_is(node, b, "<") {
        Some(SemanticBinaryOperator::Less)
    } else if text_is(node, b, "<=") {
        Some(SemanticBinaryOperator::LessEqual)
    } else if text_is(node, b, ">") {
        Some(SemanticBinaryOperator::Greater)
    } else if text_is(node, b, ">=") {
        Some(SemanticBinaryOperator::GreaterEqual)
    } else if text_is(node, b, "+") {
        Some(SemanticBinaryOperator::Add)
    } else if text_is(node, b, "-") {
        Some(SemanticBinaryOperator::Subtract)
    } else if text_is(node, b, "*") {
        Some(SemanticBinaryOperator::Multiply)
    } else if text_is(node, b, "/") {
        Some(SemanticBinaryOperator::Divide)
    } else if text_is(node, b, "%") {
        Some(SemanticBinaryOperator::Modulo)
    } else {
        None
    }
}

/// The literal kind of a literal node.
pub open spec fn literal_kind_of(node: SyntaxNode) -> SemanticLiteralKind {
    if (node.kind == NodeKind::Boolean) {
        SemanticLiteralKind::Bool
    } else if (node.kind == NodeKind::Integer) {
        SemanticLiteralKind::Int
    } else if (node.kind == NodeKind::Float) {
        SemanticLiteralKind::Float
    } else if (node.kind == NodeKind::StringLiteral) {
        SemanticLiteralKind::String
    } else {
        SemanticLiteralKind::NoneLiteral
    }
}

/// Whether an argument-list child is an argument whose value is an expression.
pub open spec fn is_argument_value(c: SyntaxNode, b: Seq<u8>) -> bool
    decreases c, 0int,
{
    c.named && (c.kind == NodeKind::Argument) && 0 <= field_at(c, "value") < c.children@.len() && has_expression(
        c.children@[field_at(c, "value")],
        b,
    )
}

/// `e` is the expression that `from_node` reads from `node`.
pub open spec fn expression_of(
    node: SyntaxNode,
    b: Seq<u8>,
    starts: Seq<usize>,
    e: SemanticExpression,
) -> bool
    decreases node, 0int,
{
    let cs = node.children@;
    let range = node_range(starts, b, node);
    if !has_expression(node, b) {
        false
    } else if (node.kind == NodeKind::Identifier) || (node.kind == NodeKind::QualifiedIdentifier) {
        e matches SemanticExpression::Identifier { name, byte_offset, range: r } && Some(
            string_bytes(name),
        ) == node_text(node, b) && byte_offset == node.start && r == range
    } else if (node.kind == NodeKind::MemberExpression) {
        let o = field_at(node, "object");
        let m = field_at(node, "member");
        &&& 0 <= o < cs.len() && 0 <= m < cs.len()
        &&& e matches SemanticExpression::Member {
            object,
            member,
            byte_offset,
            range: r,
        } && expression_of(cs[o], b, starts, *object) && Some(string_bytes(member)) == node_text(
            cs[m],
            b,
        ) && byte_offset == cs[m].start && r == range
    } else if (node.kind == NodeKind::CallExpression) {
        let f = field_at(node, "function");
        let a = field_at(node, "arguments");
        &&& 0 <= f < cs.len() && 0 <= a
        &&& e matches SemanticExpression::Call {
            function,
            arguments,
            range: r,
        } && expression_of(cs[f], b, starts, *function) && r == range && if a < cs.len() {
            arguments_upto(cs[a].children@, cs[a].children@.len() as int, b, starts, arguments@)
        } else {
            arguments@.len() == 0
        }
    } else if (node.kind == NodeKind::SubscriptExpression) {
        let a = field_at(node, "array");
        let i = field_at(node, "index");
        &&& 0 <= a < cs.len() && 0 <= i < cs.len()
        &&& e matches SemanticExpression::Subscript {
            array,
            index,
            range: r,
        } && expression_of(cs[a], b, starts, *array) && expression_of(cs[i], b, starts, *index)
            && r == range
    } else if (node.kind == NodeKind::CastExpression) {
        let v = field_at(node, "value");
        let t = field_at(node, "type");
        &&& 0 <= v < cs.len() && 0 <= t < cs.len()
        &&& e matches SemanticExpression::Cast {
            value,
            ty,
            range: r,
        } && expression_of(cs[v], b, starts, *value) && ty@ == type_ref_view(cs[t], b).unwrap()
            && r == range
    } else if (node.kind == NodeKind::TypeTestExpression) {
        let v = field_at(node, "value");
        let t = field_at(node, "type");
        &&& 0 <= v < cs.len() && 0 <= t < cs.len()
        &&& e matches SemanticExpression::TypeTest {
            value,
            ty,
            range: r,
        } && expression_of(cs[v], b, starts, *value) && ty@ == type_ref_view(cs[t], b).unwrap()
            && r == range
    } else if (node.kind == NodeKind::ParenthesizedExpression) {
        let k = named_index(cs, 0);
        &&& 0 <= k < cs.len()
        &&& e matches SemanticExpression::Parenthesized { value, range: r }
            && expression_of(cs[k], b, starts, *value) && r == range
    } else if (node.kind == NodeKind::NewExpression) {
        let t = field_at(node, "type");
        let s = field_at(node, "size");
        let sized = 0 <= s < cs.len() && has_expression(cs[s], b);
        &&& 0 <= t < cs.len()
        &&& e matches SemanticExpression::New { ty, size, range: r } && Some(
            string_bytes(ty.name),
        ) == node_text(cs[t], b) && ty.array == sized && r == range && if sized {
            size matches Some(v) && expression_of(cs[s], b, starts, *v)
        } else {
            size is None
        }
    } else if (node.kind == NodeKind::UnaryExpression) {
        let o = field_at(node, "operator");
        let a = field_at(node, "argument");
        &&& 0 <= o < cs.len() && 0 <= a < cs.len()
        &&& e matches SemanticExpression::Unary {
            operator,
            operator_range,
            argument,
            range: r,
        } && operator == (if text_is(cs[o], b, "!") {
            SemanticUnaryOperator::LogicalNot
        } else {
            SemanticUnaryOperator::Negate
        }) && operator_range == node_range(starts, b, cs[o]) && expression_of(
            cs[a],
            b,
            starts,
            *argument,
        ) && r == range
    } else if (node.kind == NodeKind::BinaryExpression) {
        let l = field_at(node, "left");
        let o = field_at(node, "operator");
        let rt = field_at(node, "right");
        &&& 0 <= l < cs.len() && 0 <= o < cs.len() && 0 <= rt < cs.len()
        &&& e matches SemanticExpression::Binary {
            left,
            operator,
            operator_range,
            right,
            range: r,
        } && expression_of(cs[l], b, starts, *left) && Some(operator) == binary_operator_of(
            cs[o],
            b,
        ) && operator_range == node_range(starts, b, cs[o]) && expression_of(
            cs[rt],
            b,
            starts,
            *right,
        ) && r == range
    } else {
        e matches SemanticExpression::Literal { kind, range: r } && kind == literal_kind_of(node)
            && r == range
    }
}

/// `es` are the expressions of the argument values among the first `k`
/// children of an argument list, in order.
pub open spec fn arguments_upto(
    cs: Seq<SyntaxNode>,
    k: int,
    b: Seq<u8>,
    starts: Seq<usize>,
    es: Seq<SemanticExpression>,
) -> bool
    decreases cs, k,
{
    if k <= 0 || k > cs.len() {
        es.len() == 0
    } else if is_argument_value(cs[k - 1], b) {
        0 <= field_at(cs[k - 1], "value") < cs[k - 1].children@.len() && es.len() > 0 && expression_of(
            cs[k - 1].children@[field_at(cs[k - 1], "value")],
            b,
            starts,
            es.last(),
        ) && arguments_upto(cs, k - 1, b, starts, es.drop_last())
    } else {
        arguments_upto(cs, k - 1, b, starts, es)
    }
}

fn binary_operator(node: &SyntaxNode, source: &str) -> (r: Option<SemanticBinaryOperator>)
    requires
        node.start <= node.end <= source.spec_bytes().len(),
    ensures
        r == binary_operator_of(*node, source.spec_bytes()),
{
    if has_text(node, source, "||") {
        Some(SemanticBinaryOperator::LogicalOr)
    } else if has_text(node, source, "&&") {
        Some(SemanticBinaryOperator::LogicalAnd)
    } else if has_text(node, source, "==") {
        Some(SemanticBinaryOperator::Equal)
    } else if has_text(node, source, "!=") {
        Some(SemanticBinaryOperator::NotEqual)
    } else if has_text(node, source, "<") {
        Some(SemanticBinaryOperator::Less)
    } else if has_text(node, source, "<=") {
        Some(SemanticBinaryOperator::LessEqual)
    } else if has_text(node, source, ">") {
        Some(SemanticBinaryOperator::Greater)
    } else if has_text(node, source, ">=") {
        Some(SemanticBinaryOperator::GreaterEqual)
    } else if has_text(node, source, "+") {
        Some(SemanticBinaryOperator::Add)
    } else if has_text(node, source, "-") {
        Some(SemanticBinaryOperator::Subtract)
    } else if has_text(node, source, "*") {
        Some(SemanticBinaryOperator::Multiply)
    } else if has_text(node, source, "/") {
        Some(SemanticBinaryOperator::Divide)
    } else if has_text(node, source, "%") {
        Some(SemanticBinaryOperator::Modulo)
    } else {
        None
    }
}

/// The expressions of the argument values of an argument list.
fn argument_expressions(arguments: &SyntaxNode, source: &str, index: &LineIndex) -> (r: Vec<
    SemanticExpression,
>)
    requires
        arguments.fits(source.spec_bytes().len() as int),
        index@ == line_starts_of(source.spec_bytes()),
    ensures
        arguments_upto(
            arguments.children@,
            arguments.children@.len() as int,
            source.spec_bytes(),
            index@,
            r@,
        ),
    decreases arguments, 3int,
{
    let ghost b = source.spec_bytes();
    let mut out: Vec<SemanticExpression> = Vec::new();
    let mut i: usize = 0;
    while i < arguments.children.len()
        invariant
            arguments.fits(b.len() as int),
            b == source.spec_bytes(),
            index@ == line_starts_of(b),
            0 <= i <= arguments.children@.len(),
            arguments_upto(arguments.children@, i as int, b, index@, out@),
        decreases arguments.children@.len() - i,
    {
        let child = &arguments.children[i];
        assert(child.fits(b.len() as int));
        let mut pushed = false;
        if child.named && (child.kind == NodeKind::Argument) {
            let v = field_position(child, "value");
            if v < child.children.len() {
                assert(child.children@[v as int].fits(b.len() as int));
                match from_node(&child.children[v], source, index) {
                    Some(e) => {
                        let ghost before = out@;
                        out.push(e);
                        assert(out@.drop_last() =~= before);
                        pushed = true;
                    },
                    None => {},
                }
            }
        }
        i = i + 1;
    }
    out
}

/// The expression that a syntax node denotes, if it is one.
pub fn from_node(node: &SyntaxNode, source: &str, index: &LineIndex) -> (r: Option<
    SemanticExpression,
>)
    requires
        node.fits(source.spec_bytes().len() as int),
        index@ == line_starts_of(source.spec_bytes()),
    ensures
        r.is_some() == has_expression(*node, source.spec_bytes()),
        r matches Some(e) ==> expression_of(*node, source.spec_bytes(), index@, e),
    decreases node, 2int,
{
    if (node.kind == NodeKind::Identifier) || (node.kind == NodeKind::QualifiedIdentifier) {
        let range = range_of(node, source, index);
        match text(node, source) {
            Some(name) => Some(SemanticExpression::Identifier { name, byte_offset: node.start, range }),
            None => None,
        }
    } else if (node.kind == NodeKind::MemberExpression) {
        member_expression(node, source, index)
    } else if (node.kind == NodeKind::CallExpression) {
        call_expression(node, source, index)
    } else if (node.kind == NodeKind::SubscriptExpression) {
        subscript_expression(node, source, index)
    } else if (node.kind == NodeKind::CastExpression) || (node.kind == NodeKind::TypeTestExpression) {
        typed_expression(node, source, index)
    } else if (node.kind == NodeKind::ParenthesizedExpression) {
        parenthesized_expression(node, source, index)
    } else if (node.kind == NodeKind::NewExpression) {
        new_expression(node, source, index)
    } else if (node.kind == NodeKind::Boolean) || (node.kind == NodeKind::Integer) || (node.kind == NodeKind::Float)
        || (node.kind == NodeKind::StringLiteral) || (node.kind == NodeKind::NoneLiteral) {
        let range = range_of(node, source, index);
        let kind = if (node.kind == NodeKind::Boolean) {
            SemanticLiteralKind::Bool
        } else if (node.kind == NodeKind::Integer) {
            SemanticLiteralKind::Int
        } else if (node.kind == NodeKind::Float) {
            SemanticLiteralKind::Float
        } else if (node.kind == NodeKind::StringLiteral) {
            SemanticLiteralKind::String
        } else {
            SemanticLiteralKind::NoneLiteral
        };
        Some(SemanticExpression::Literal { kind, range })
    } else if (node.kind == NodeKind::UnaryExpression) {
        unary_expression(node, source, index)
    } else if (node.kind == NodeKind::BinaryExpression) {
        binary_expression(node, source, index)
    } else {
        None
    }
}

fn member_expression(node: &SyntaxNode, source: &str, index: &LineIndex) -> (r: Option<SemanticExpression>)
    requires
        node.fits(source.spec_bytes().len() as int),
        index@ == line_starts_of(source.spec_bytes()),
        (node.kind == NodeKind::MemberExpression),
    ensures
        r.is_some() == has_expression(*node, source.spec_bytes()),
        r matches Some(e) ==> expression_of(*node, source.spec_bytes(), index@, e),
    decreases node, 1int,
{
    let ghost b = source.spec_bytes();
    let n = node.children.len();
    let range = range_of(node, source, index);
    proof {
        assert forall|i: int| 0 <= i < node.children@.len() implies (#[trigger] node.children@[i]).fits(
            b.len() as int,
        ) by {}
    }
    let o = field_position(node, "object");
    let m = field_position(node, "member");
    if o >= n || m >= n {
        return None;
    }
    let object = match from_node(&node.children[o], source, index) {
        Some(e) => e,
        None => return None,
    };
    let member = match text(&node.children[m], source) {
        Some(t) => t,
        None => return None,
    };
    Some(
        SemanticExpression::Member {
            object: Box::new(object),
            member,
            byte_offset: node.children[m].start,
            range,
        },
    )
}

fn call_expression(node: &SyntaxNode, source: &str, index: &LineIndex) -> (r: Option<SemanticExpression>)
    requires
        node.fits(source.spec_bytes().len() as int),
        index@ == line_starts_of(source.spec_bytes()),
        (node.kind == NodeKind::CallExpression),
    ensures
        r.is_some() == has_expression(*node, source.spec_bytes()),
        r matches Some(e) ==> expression_of(*node, source.spec_bytes(), index@, e),
    decreases node, 1int,
{
    let ghost b = source.spec_bytes();
    let n = node.children.len();
    let range = range_of(node, source, index);
    proof {
        assert forall|i: int| 0 <= i < node.children@.len() implies (#[trigger] node.children@[i]).fits(
            b.len() as int,
        ) by {}
    }
    let a = field_position(node, "arguments");
    let arguments = if a < n {
        argument_expressions(&node.children[a], source, index)
    } else {
        Vec::new()
    };
    let f = field_position(node, "function");
    if f >= n {
        return None;
    }
    let function = match from_node(&node.children[f], source, index) {
        Some(e) => e,
        None => return None,
    };
    Some(SemanticExpression::Call { function: Box::new(function), arguments, range })
}

fn subscript_expression(node: &SyntaxNode, source: &str, index: &LineIndex) -> (r: Option<SemanticExpression>)
    requires
        node.fits(source.spec_bytes().len() as int),
        index@ == line_starts_of(source.spec_bytes()),
        (node.kind == NodeKind::SubscriptExpression),
    ensures
        r.is_some() == has_expression(*node, source.spec_bytes()),
        r matches Some(e) ==> expression_of(*node, source.spec_bytes(), index@, e),
    decreases node, 1int,
{
    let ghost b = source.spec_bytes();
    let n = node.children.len();
    let range = range_of(node, source, index);
    proof {
        assert forall|i: int| 0 <= i < node.children@.len() implies (#[trigger] node.children@[i]).fits(
            b.len() as int,
        ) by {}
    }
    let a = field_position(node, "array");
    let i = field_position(node, "index");
    if a >= n || i >= n {
        return None;
    }
    let array = match from_node(&node.children[a], source, index) {
        Some(e) => e,
        None => return None,
    };
    let position = match from_node(&node.children[i], source, index) {
        Some(e) => e,
        None => return None,
    };
    Some(SemanticExpression::Subscript { array: Box::new(array), index: Box::new(position), range })
}

fn typed_expression(node: &SyntaxNode, source: &str, index: &LineIndex) -> (r: Option<SemanticExpression>)
    requires
        node.fits(source.spec_bytes().len() as int),
        index@ == line_starts_of(source.spec_bytes()),
        (node.kind == NodeKind::CastExpression) || (node.kind == NodeKind::TypeTestExpression),
    ensures
        r.is_some() == has_expression(*node, source.spec_bytes()),
        r matches Some(e) ==> expression_of(*node, source.spec_bytes(), index@, e),
    decreases node, 1int,
{
    let ghost b = source.spec_bytes();
    let n = node.children.len();
    let range = range_of(node, source, index);
    proof {
        assert forall|i: int| 0 <= i < node.children@.len() implies (#[trigger] node.children@[i]).fits(
            b.len() as int,
        ) by {}
    }
    let v = field_position(node, "value");
    let t = field_position(node, "type");
    if v >= n {
        return None;
    }
    let value = match from_node(&node.children[v], source, index) {
        Some(e) => e,
        None => return None,
    };
    if t >= n {
        return None;
    }
    let ty = match type_ref(&node.children[t], source) {
        Some(ty) => ty,
        None => return None,
    };
    if (node.kind == NodeKind::CastExpression) {
        Some(SemanticExpression::Cast { value: Box::new(value), ty, range })
    } else {
        Some(SemanticExpression::TypeTest { value: Box::new(value), ty, range })
    }
}

fn parenthesized_expression(node: &SyntaxNode, source: &str, index: &LineIndex) -> (r: Option<SemanticExpression>)
    requires
        node.fits(source.spec_bytes().len() as int),
        index@ == line_starts_of(source.spec_bytes()),
        (node.kind == NodeKind::ParenthesizedExpression),
    ensures
        r.is_some() == has_expression(*node, source.spec_bytes()),
        r matches Some(e) ==> expression_of(*node, source.spec_bytes(), index@, e),
    decreases node, 1int,
{
    let ghost b = source.spec_bytes();
    let n = node.children.len();
    let range = range_of(node, source, index);
    proof {
        assert forall|i: int| 0 <= i < node.children@.len() implies (#[trigger] node.children@[i]).fits(
            b.len() as int,
        ) by {}
    }
    let k = first_named_position(node);
    if k >= n {
        return None;
    }
    match from_node(&node.children[k], source, index) {
        Some(value) => Some(SemanticExpression::Parenthesized { value: Box::new(value), range }),
        None => None,
    }
}

fn new_expression(node: &SyntaxNode, source: &str, index: &LineIndex) -> (r: Option<SemanticExpression>)
    requires
        node.fits(source.spec_bytes().len() as int),
        index@ == line_starts_of(source.spec_bytes()),
        (node.kind == NodeKind::NewExpression),
    ensures
        r.is_some() == has_expression(*node, source.spec_bytes()),
        r matches Some(e) ==> expression_of(*node, source.spec_bytes(), index@, e),
    decreases node, 1int,
{
    let ghost b = source.spec_bytes();
    let n = node.children.len();
    let range = range_of(node, source, index);
    proof {
        assert forall|i: int| 0 <= i < node.children@.len() implies (#[trigger] node.children@[i]).fits(
            b.len() as int,
        ) by {}
    }
    let t = field_position(node, "type");
    if t >= n {
        return None;
    }
    let s = field_position(node, "size");
    let size = if s < n {
        match from_node(&node.children[s], source, index) {
            Some(e) => Some(Box::new(e)),
            None => None,
        }
    } else {
        None
    };
    let name = match text(&node.children[t], source) {
        Some(name) => name,
        None => return None,
    };
    let array = size.is_some();
    Some(SemanticExpression::New { ty: TypeRef { name, array }, size, range })
}

fn unary_expression(node: &SyntaxNode, source: &str, index: &LineIndex) -> (r: Option<SemanticExpression>)
    requires
        node.fits(source.spec_bytes().len() as int),
        index@ == line_starts_of(source.spec_bytes()),
        (node.kind == NodeKind::UnaryExpression),
    ensures
        r.is_some() == has_expression(*node, source.spec_bytes()),
        r matches Some(e) ==> expression_of(*node, source.spec_bytes(), index@, e),
    decreases node, 1int,
{
    let ghost b = source.spec_bytes();
    let n = node.children.len();
    let range = range_of(node, source, index);
    proof {
        assert forall|i: int| 0 <= i < node.children@.len() implies (#[trigger] node.children@[i]).fits(
            b.len() as int,
        ) by {}
    }
    let o = field_position(node, "operator");
    if o >= n {
        return None;
    }
    let operator = if has_text(&node.children[o], source, "!") {
        SemanticUnaryOperator::LogicalNot
    } else if has_text(&node.children[o], source, "-") {
        SemanticUnaryOperator::Negate
    } else {
        return None;
    };
    let operator_range = range_of(&node.children[o], source, index);
    let a = field_position(node, "argument");
    if a >= n {
        return None;
    }
    match from_node(&node.children[a], source, index) {
        Some(argument) => Some(
            SemanticExpression::Unary { operator, operator_range, argument: Box::new(argument), range },
        ),
        None => None,
    }
}

fn binary_expression(node: &SyntaxNode, source: &str, index: &LineIndex) -> (r: Option<SemanticExpression>)
    requires
        node.fits(source.spec_bytes().len() as int),
        index@ == line_starts_of(source.spec_bytes()),
        (node.kind == NodeKind::BinaryExpression),
    ensures
        r.is_some() == has_expression(*node, source.spec_bytes()),
        r matches Some(e) ==> expression_of(*node, source.spec_bytes(), index@, e),
    decreases node, 1int,
{
    let ghost b = source.spec_bytes();
    let n = node.children.len();
    let range = range_of(node, source, index);
    proof {
        assert forall|i: int| 0 <= i < node.children@.len() implies (#[trigger] node.children@[i]).fits(
            b.len() as int,
        ) by {}
    }
    let l = field_position(node, "left");
    if l >= n {
        return None;
    }
    let left = match from_node(&node.children[l], source, index) {
        Some(e) => e,
        None => return None,
    };
    let o = field_position(node, "operator");
    if o >= n {
        return None;
    }
    let operator = match binary_operator(&node.children[o], source) {
        Some(op) => op,
        None => return None,
    };
    let operator_range = range_of(&node.children[o], source, index);
    let r = field_position(node, "right");
    if r >= n {
        return None;
    }
    match from_node(&node.children[r], source, index) {
        Some(right) => Some(
            SemanticExpression::Binary {
                left: Box::new(left),
                operator,
                operator_range,
                right: Box::new(right),
                range,
            },
        ),
        None => None,
    }
}

} // verus!
