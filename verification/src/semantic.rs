//! The semantic model of a Papyrus document: declarations, identifier
//! occurrences, call sites, expressions and statement-level type checks.
use vstd::prelude::*;
use vstd::string::StringSliceAdditionalSpecFns;
use crate::line_index::TextRange;
use crate::structure::ByteRange;
use crate::text::{same_ignoring_case, string_bytes, str_equal_ignoring_case};

verus! {

/// A declared Papyrus type: a script, struct or primitive name, possibly an array.
#[derive(Clone, Debug, PartialEq, Eq)]
pub struct TypeRef {
    pub name: String,
    pub array: bool,
}

/// The mathematical content of a type reference: the UTF-8 bytes of its name.
pub struct TypeRefView {
    pub name: Seq<u8>,
    pub array: bool,
}

impl View for TypeRef {
    type V = TypeRefView;

    open spec fn view(&self) -> TypeRefView {
        TypeRefView { name: string_bytes(self.name), array: self.array }
    }
}

/// A name compared case-insensitively with a literal.
pub open spec fn name_is(name: Seq<u8>, literal: &str) -> bool {
    same_ignoring_case(name, literal.spec_bytes())
}

/// `name.eq_ignore_ascii_case(literal)` on owned text.
pub fn string_is(name: &String, literal: &str) -> (r: bool)
    ensures
        r == name_is(string_bytes(*name), literal),
{
    str_equal_ignoring_case(name.as_str(), literal)
}

/// Case-insensitive equality of two owned names.
pub fn strings_match(a: &String, b: &String) -> (r: bool)
    ensures
        r == same_ignoring_case(string_bytes(*a), string_bytes(*b)),
{
    str_equal_ignoring_case(a.as_str(), b.as_str())
}

impl TypeRef {
    /// The type as written: its name, followed by `[]` for an array.
    pub fn display(&self) -> (r: String)
        ensures
            r@ == self.name@ + if self.array { "[]"@ } else { Seq::<char>::empty() },
    {
        let mut text = self.name.clone();
        if self.array {
            text.append("[]");
        }
        text
    }

    /// The name of a non-array type.
    pub fn scalar_name(&self) -> (r: Option<&str>)
        ensures
            self.array ==> r is None,
            !self.array ==> (r matches Some(name) && name@ == self.name@),
    {
        if self.array {
            None
        } else {
            Some(self.name.as_str())
        }
    }
}

/// A declared parameter of a function or event.
#[derive(Clone, Debug)]
pub struct Parameter {
    pub name: String,
    pub ty: TypeRef,
    pub has_default: bool,
}

#[derive(Clone, Copy, Debug, PartialEq, Eq, Structural)]
pub enum DeclarationKind {
    Script,
    Property,
    Variable,
    Function,
    Event,
    Struct,
    State,
    Parameter,
    Guard,
}

/// A named declaration of a Papyrus document.
#[derive(Clone, Debug)]
pub struct Declaration {
    pub name: String,
    pub kind: DeclarationKind,
    pub ty: Option<TypeRef>,
    pub parameters: Vec<Parameter>,
    pub owner_script: Option<String>,
    pub container: Option<String>,
    pub selection_range: TextRange,
    pub scope: ByteRange,
    pub documentation: Option<String>,
    pub is_const: bool,
    pub is_read_only: bool,
    pub is_global: bool,
}

/// The text of an optional string.
pub open spec fn opt_bytes(o: Option<String>) -> Option<Seq<u8>> {
    match o {
        Some(s) => Some(string_bytes(s)),
        None => None,
    }
}

/// The text of an optional type.
pub open spec fn opt_type(o: Option<TypeRef>) -> Option<TypeRefView> {
    match o {
        Some(t) => Some(t@),
        None => None,
    }
}

pub struct ParameterView {
    pub name: Seq<u8>,
    pub ty: TypeRefView,
    pub has_default: bool,
}

impl View for Parameter {
    type V = ParameterView;

    open spec fn view(&self) -> ParameterView {
        ParameterView { name: string_bytes(self.name), ty: self.ty@, has_default: self.has_default }
    }
}

/// The content of a declaration, with its texts as UTF-8 bytes.
pub struct DeclarationView {
    pub name: Seq<u8>,
    pub kind: DeclarationKind,
    pub ty: Option<TypeRefView>,
    pub parameters: Seq<ParameterView>,
    pub owner_script: Option<Seq<u8>>,
    pub container: Option<Seq<u8>>,
    pub selection_range: TextRange,
    pub scope: ByteRange,
    pub documentation: Option<Seq<u8>>,
    pub is_const: bool,
    pub is_read_only: bool,
    pub is_global: bool,
}

impl View for Declaration {
    type V = DeclarationView;

    open spec fn view(&self) -> DeclarationView {
        DeclarationView {
            name: string_bytes(self.name),
            kind: self.kind,
            ty: opt_type(self.ty),
            parameters: self.parameters@.map_values(|p: Parameter| p@),
            owner_script: opt_bytes(self.owner_script),
            container: opt_bytes(self.container),
            selection_range: self.selection_range,
            scope: self.scope,
            documentation: opt_bytes(self.documentation),
            is_const: self.is_const,
            is_read_only: self.is_read_only,
            is_global: self.is_global,
        }
    }
}

#[derive(Clone, Copy, Debug, PartialEq, Eq, Structural)]
pub enum SemanticOccurrenceKind {
    Reference,
    Type,
    Import,
    Member,
    NamedArgument,
}

#[derive(Clone, Copy, Debug, PartialEq, Eq, Structural)]
pub enum SemanticLiteralKind {
    Bool,
    Int,
    Float,
    String,
    NoneLiteral,
}

#[derive(Clone, Copy, Debug, PartialEq, Eq, Structural)]
pub enum SemanticUnaryOperator {
    LogicalNot,
    Negate,
}

#[derive(Clone, Copy, Debug, PartialEq, Eq, Structural)]
pub enum SemanticBinaryOperator {
    LogicalOr,
    LogicalAnd,
    Equal,
    NotEqual,
    Less,
    LessEqual,
    Greater,
    GreaterEqual,
    Add,
    Subtract,
    Multiply,
    Divide,
    Modulo,
}

#[derive(Clone, Copy, Debug, PartialEq, Eq, Structural)]
pub enum SemanticAssignmentOperator {
    Assign,
    Add,
    Subtract,
    Multiply,
    Divide,
    Modulo,
}

/// A spanned expression tree.
#[derive(Debug)]
pub enum SemanticExpression {
    Identifier { name: String, byte_offset: usize, range: TextRange },
    Member { object: Box<SemanticExpression>, member: String, byte_offset: usize, range: TextRange },
    Call { function: Box<SemanticExpression>, arguments: Vec<SemanticExpression>, range: TextRange },
    Subscript { array: Box<SemanticExpression>, index: Box<SemanticExpression>, range: TextRange },
    Cast { value: Box<SemanticExpression>, ty: TypeRef, range: TextRange },
    TypeTest { value: Box<SemanticExpression>, ty: TypeRef, range: TextRange },
    Parenthesized { value: Box<SemanticExpression>, range: TextRange },
    New { ty: TypeRef, size: Option<Box<SemanticExpression>>, range: TextRange },
    Literal { kind: SemanticLiteralKind, range: TextRange },
    Unary {
        operator: SemanticUnaryOperator,
        operator_range: TextRange,
        argument: Box<SemanticExpression>,
        range: TextRange,
    },
    Binary {
        left: Box<SemanticExpression>,
        operator: SemanticBinaryOperator,
        operator_range: TextRange,
        right: Box<SemanticExpression>,
        range: TextRange,
    },
}

impl SemanticExpression {
    pub open spec fn spec_range(self) -> TextRange {
        match self {
            SemanticExpression::Identifier { range, .. } => range,
            SemanticExpression::Member { range, .. } => range,
            SemanticExpression::Call { range, .. } => range,
            SemanticExpression::Subscript { range, .. } => range,
            SemanticExpression::Cast { range, .. } => range,
            SemanticExpression::TypeTest { range, .. } => range,
            SemanticExpression::Parenthesized { range, .. } => range,
            SemanticExpression::New { range, .. } => range,
            SemanticExpression::Literal { range, .. } => range,
            SemanticExpression::Unary { range, .. } => range,
            SemanticExpression::Binary { range, .. } => range,
        }
    }

    /// The source range covered by the whole expression.
    pub fn range(&self) -> (r: TextRange)
        ensures
            r == self.spec_range(),
    {
        match self {
            SemanticExpression::Identifier { range, .. } => *range,
            SemanticExpression::Member { range, .. } => *range,
            SemanticExpression::Call { range, .. } => *range,
            SemanticExpression::Subscript { range, .. } => *range,
            SemanticExpression::Cast { range, .. } => *range,
            SemanticExpression::TypeTest { range, .. } => *range,
            SemanticExpression::Parenthesized { range, .. } => *range,
            SemanticExpression::New { range, .. } => *range,
            SemanticExpression::Literal { range, .. } => *range,
            SemanticExpression::Unary { range, .. } => *range,
            SemanticExpression::Binary { range, .. } => *range,
        }
    }
}

/// A statement-level site whose types are checked.
#[derive(Debug)]
pub enum SemanticTypeCheck {
    Assignment {
        target: SemanticExpression,
        operator: SemanticAssignmentOperator,
        operator_range: TextRange,
        value: SemanticExpression,
    },
    Initializer { expected: TypeRef, value: SemanticExpression },
    Return { expected: Option<TypeRef>, value: Option<SemanticExpression>, range: TextRange },
    Condition { value: SemanticExpression },
    Expression { value: SemanticExpression },
}

/// A syntax-backed identifier that is not a declaration name.
#[derive(Debug)]
pub struct SemanticOccurrence {
    pub name: String,
    pub receiver: Option<SemanticExpression>,
    pub selection_range: TextRange,
    pub byte_offset: usize,
    pub is_named_argument_label: bool,
    pub kind: SemanticOccurrenceKind,
}

/// One argument of a call.
#[derive(Clone, Debug)]
pub struct SemanticCallArgument {
    pub name: Option<String>,
    pub range: TextRange,
    pub name_range: Option<TextRange>,
    pub byte_range: ByteRange,
}

/// A call with the byte range of its argument list.
#[derive(Clone, Debug)]
pub struct SemanticCallSite {
    pub callee_range: TextRange,
    pub argument_range: ByteRange,
    pub separators: Vec<usize>,
    pub arguments: Vec<SemanticCallArgument>,
    pub complete: bool,
}

/// Number of separators before `offset`, searching from `k`.
pub open spec fn separators_before(separators: Seq<usize>, offset: int, k: int) -> int
    decreases separators.len() - k,
{
    if k < 0 || k >= separators.len() {
        separators.len() as int
    } else if separators[k] < offset {
        separators_before(separators, offset, k + 1)
    } else {
        k
    }
}

impl SemanticCallSite {
    pub open spec fn spec_contains_offset(self, offset: int) -> bool {
        self.argument_range.start <= offset && offset <= self.argument_range.end
    }

    pub fn contains_offset(&self, offset: usize) -> (r: bool)
        ensures
            r == self.spec_contains_offset(offset as int),
    {
        self.argument_range.start <= offset && offset <= self.argument_range.end
    }

    /// The argument index at `offset` (the separators before it), and the name
    /// of a named argument that starts at or before it.
    pub open spec fn spec_argument_at(self, offset: int) -> Option<(int, Option<String>)> {
        if !self.spec_contains_offset(offset) {
            None
        } else {
            let index = separators_before(self.separators@, offset, 0);
            let name = if index < self.arguments@.len() && self.arguments@[index].byte_range.start <= offset {
                self.arguments@[index].name
            } else {
                None
            };
            Some((index, name))
        }
    }

    pub fn argument_at(&self, offset: usize) -> (r: Option<(usize, Option<String>)>)
        ensures
            match self.spec_argument_at(offset as int) {
                None => r is None,
                Some((index, name)) => (r matches Some((i, n)) && i == index && n == name),
            },
    {
        if !self.contains_offset(offset) {
            return None;
        }
        let mut index: usize = 0;
        while index < self.separators.len() && self.separators[index] < offset
            invariant
                0 <= index <= self.separators@.len(),
                separators_before(self.separators@, offset as int, index as int) == separators_before(self.separators@, offset as int, 0),
            decreases self.separators@.len() - index,
        {
            index = index + 1;
        }
        let name = if index < self.arguments.len() && self.arguments[index].byte_range.start <= offset {
            self.arguments[index].name.clone()
        } else {
            None
        };
        Some((index, name))
    }

    /// Width of the argument list in bytes.
    pub fn argument_span(&self) -> (r: usize)
        ensures
            r == if self.argument_range.end >= self.argument_range.start {
                self.argument_range.end - self.argument_range.start
            } else {
                0
            },
    {
        if self.argument_range.end >= self.argument_range.start {
            self.argument_range.end - self.argument_range.start
        } else {
            0
        }
    }

    pub fn is_complete(&self) -> (r: bool)
        ensures
            r == self.complete,
    {
        self.complete
    }

    pub fn arguments(&self) -> (r: &Vec<SemanticCallArgument>)
        ensures
            r@ == self.arguments@,
    {
        &self.arguments
    }
}

/// A member access whose receiver can be completed at a byte range.
#[derive(Debug)]
pub struct SemanticMemberAccess {
    pub receiver: SemanticExpression,
    pub completion_range: ByteRange,
}

impl SemanticMemberAccess {
    pub fn contains_offset(&self, offset: usize) -> (r: bool)
        ensures
            r == (self.completion_range.start <= offset && offset <= self.completion_range.end),
    {
        self.completion_range.start <= offset && offset <= self.completion_range.end
    }

    pub fn span(&self) -> (r: usize)
        ensures
            r == if self.completion_range.end >= self.completion_range.start {
                self.completion_range.end - self.completion_range.start
            } else {
                0
            },
    {
        if self.completion_range.end >= self.completion_range.start {
            self.completion_range.end - self.completion_range.start
        } else {
            0
        }
    }
}

} // verus!
