//! The concrete syntax tree of a Papyrus document as the grammar's parser
//! produced it, and the node queries that the analyses use.
//!
//! Each node records its kind, the field under which it hangs in its parent,
//! whether the grammar names it, whether the parser inserted it as missing,
//! its byte span in the source, and its children in order.
use vstd::prelude::*;
use vstd::utf8::*;
use vstd::string::StringSliceAdditionalSpecFns;
use crate::line_index::{LineIndex, Position, TextRange, line_starts_of, position_spec};
use crate::structure::ByteRange;
use crate::text::{bytes_equal, copy_range, string_bytes, string_from_utf8};

verus! {

/// The node kinds of the Papyrus grammar that the analyses tell apart.
/// `ConstKeyword` and `GlobalKeyword` are the `Const` and `Global` flag
/// tokens, whatever their case; every other kind is matched exactly.
#[derive(Clone, Copy, Debug, PartialEq, Eq, Structural)]
pub enum NodeKind {
    Identifier,
    QualifiedIdentifier,
    MemberExpression,
    CallExpression,
    SubscriptExpression,
    CastExpression,
    TypeTestExpression,
    ParenthesizedExpression,
    NewExpression,
    Boolean,
    Integer,
    Float,
    StringLiteral,
    NoneLiteral,
    UnaryExpression,
    BinaryExpression,
    Argument,
    ScriptDeclaration,
    ImportDeclaration,
    PropertyDefinition,
    AutoPropertyDefinition,
    VariableDeclaration,
    StructMember,
    FunctionDefinition,
    NativeFunctionDeclaration,
    EventDefinition,
    NativeEventDeclaration,
    CustomEventDeclaration,
    StructDeclaration,
    StateDeclaration,
    GroupDeclaration,
    Parameter,
    GuardDeclaration,
    AssignmentStatement,
    ReturnStatement,
    IfStatement,
    ElseifClause,
    WhileStatement,
    ExpressionStatement,
    Type,
    Error,
    OpenParen,
    CloseParen,
    Comma,
    Dot,
    ConstKeyword,
    GlobalKeyword,
    Other,
}

/// A node of the syntax tree. `kind_name` is the grammar's name of its kind.
pub struct SyntaxNode {
    pub kind: NodeKind,
    pub kind_name: String,
    pub field: Option<String>,
    pub named: bool,
    pub missing: bool,
    pub start: usize,
    pub end: usize,
    pub children: Vec<SyntaxNode>,
}

impl SyntaxNode {
    /// Every span of the tree lies within a text of `n` bytes.
    pub open spec fn fits(self, n: int) -> bool
        decreases self,
    {
        &&& self.start <= self.end <= n
        &&& forall|i: int| 0 <= i < self.children@.len() ==> (#[trigger] self.children@[i]).fits(n)
    }

}

/// A node that hangs under a field.
pub open spec fn field_is(node: SyntaxNode, field: &str) -> bool {
    node.field matches Some(f) && string_bytes(f) == field.spec_bytes()
}

/// The first child at or after `i` that hangs under a field, or the count.
pub open spec fn field_index(children: Seq<SyntaxNode>, field: &str, i: int) -> int
    decreases children.len() - i,
{
    if i < 0 || i >= children.len() {
        children.len() as int
    } else if field_is(children[i], field) {
        i
    } else {
        field_index(children, field, i + 1)
    }
}

/// The position of the child under a field (`child_by_field_name`), or the
/// number of children when there is none.
pub open spec fn field_at(node: SyntaxNode, field: &str) -> int {
    field_index(node.children@, field, 0)
}

/// The child under a field.
pub open spec fn field_child(node: SyntaxNode, field: &str) -> Option<SyntaxNode> {
    if field_at(node, field) < node.children@.len() {
        Some(node.children@[field_at(node, field)])
    } else {
        None
    }
}

/// The first named child at or after `i`, or the count.
pub open spec fn named_index(children: Seq<SyntaxNode>, i: int) -> int
    decreases children.len() - i,
{
    if i < 0 || i >= children.len() {
        children.len() as int
    } else if children[i].named {
        i
    } else {
        named_index(children, i + 1)
    }
}

/// The source text of a node, if its span is valid UTF-8.
pub open spec fn node_text(node: SyntaxNode, b: Seq<u8>) -> Option<Seq<u8>> {
    if valid_utf8(b.subrange(node.start as int, node.end as int)) {
        Some(b.subrange(node.start as int, node.end as int))
    } else {
        None
    }
}

/// The text of a node equals a literal.
pub open spec fn text_is(node: SyntaxNode, b: Seq<u8>, literal: &str) -> bool {
    node_text(node, b) == Some(literal.spec_bytes())
}

/// The LSP range of a byte span.
pub open spec fn span_range(starts: Seq<usize>, b: Seq<u8>, start: int, end: int) -> TextRange {
    TextRange { start: position_spec(starts, b, start), end: position_spec(starts, b, end) }
}

/// The LSP range of a node.
pub open spec fn node_range(starts: Seq<usize>, b: Seq<u8>, node: SyntaxNode) -> TextRange {
    span_range(starts, b, node.start as int, node.end as int)
}

/// Whether the node hangs under a field.
pub fn has_field_name(node: &SyntaxNode, field: &str) -> (r: bool)
    ensures
        r == field_is(*node, field),
{
    match &node.field {
        Some(f) => bytes_equal(f.as_str().as_bytes(), field.as_bytes()),
        None => false,
    }
}

/// The position of the child under a field.
pub fn field_position(node: &SyntaxNode, field: &str) -> (r: usize)
    ensures
        r == field_at(*node, field),
        r <= node.children@.len(),
{
    let mut i: usize = 0;
    while i < node.children.len() && !has_field_name(&node.children[i], field)
        invariant
            0 <= i <= node.children@.len(),
            field_index(node.children@, field, i as int) == field_index(node.children@, field, 0),
        decreases node.children@.len() - i,
    {
        i = i + 1;
    }
    i
}

/// The position of the first named child.
pub fn first_named_position(node: &SyntaxNode) -> (r: usize)
    ensures
        r == named_index(node.children@, 0),
        r <= node.children@.len(),
{
    let mut i: usize = 0;
    while i < node.children.len() && !node.children[i].named
        invariant
            0 <= i <= node.children@.len(),
            named_index(node.children@, i as int) == named_index(node.children@, 0),
        decreases node.children@.len() - i,
    {
        i = i + 1;
    }
    i
}

/// The source text of a node (`Node::utf8_text`).
pub fn text(node: &SyntaxNode, source: &str) -> (r: Option<String>)
    requires
        node.start <= node.end <= source.spec_bytes().len(),
    ensures
        r.is_some() == node_text(*node, source.spec_bytes()).is_some(),
        r matches Some(s) ==> Some(string_bytes(s)) == node_text(*node, source.spec_bytes()),
{
    string_from_utf8(copy_range(source.as_bytes(), node.start, node.end))
}

/// Whether the text of a node equals a literal.
pub fn has_text(node: &SyntaxNode, source: &str, literal: &str) -> (r: bool)
    requires
        node.start <= node.end <= source.spec_bytes().len(),
    ensures
        r == text_is(*node, source.spec_bytes(), literal),
{
    match text(node, source) {
        Some(s) => bytes_equal(s.as_str().as_bytes(), literal.as_bytes()),
        None => false,
    }
}

/// The LSP range of a node.
pub fn range_of(node: &SyntaxNode, source: &str, index: &LineIndex) -> (r: TextRange)
    requires
        index@ == line_starts_of(source.spec_bytes()),
    ensures
        r == node_range(index@, source.spec_bytes(), *node),
{
    index.range(source, ByteRange { start: node.start, end: node.end })
}

} // verus!
