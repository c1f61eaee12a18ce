//! What an expression denotes and the type of its value: declarations,
//! scripts, members, calls, subscripts, casts, literals and operators.
use vstd::prelude::*;
use vstd::string::StringSliceAdditionalSpecFns;
use crate::inference::Resolution;
use crate::semantic::{
    DeclarationKind, SemanticExpression, SemanticLiteralKind, TypeRef, TypeRefView, opt_type,
};
use crate::text::{same_ignoring_case, str_equal_ignoring_case, string_bytes};
use crate::type_system::{
    ValueType, ValueTypeView, binary_result, binary_result_spec, known, known_view, unary_result,
    unary_result_spec,
};
use crate::workspace::{
    DeclFilter, DeclRef, FilterSpec, WorkspaceIndex, list_view, members_of_type_spec,
    named_outcome_spec, selected, unique_script_spec, visible_name_spec,
};

verus! {

/// How deep `resolve_expression` follows nested expressions.
pub const MAX_EXPRESSION_DEPTH: usize = 64;

/// What an expression denotes: a declaration, a script, or a value.
pub enum ExpressionResolution {
    Declaration(DeclRef),
    Script(DeclRef),
    Value(ValueType),
}

pub enum ExpressionResolutionView {
    Declaration(DeclRef),
    Script(DeclRef),
    Value(ValueTypeView),
}

impl View for ExpressionResolution {
    type V = ExpressionResolutionView;

    open spec fn view(&self) -> ExpressionResolutionView {
        match self {
            ExpressionResolution::Declaration(d) => ExpressionResolutionView::Declaration(*d),
            ExpressionResolution::Script(s) => ExpressionResolutionView::Script(*s),
            ExpressionResolution::Value(v) => ExpressionResolutionView::Value(v@),
        }
    }
}

pub open spec fn resolution_view(r: Resolution<ExpressionResolution>) -> Resolution<ExpressionResolutionView> {
    match r {
        Resolution::Resolved(v) => Resolution::Resolved(v@),
        Resolution::Missing => Resolution::Missing,
        Resolution::Ambiguous => Resolution::Ambiguous,
        Resolution::Unsupported => Resolution::Unsupported,
    }
}

pub open spec fn value_view(r: Resolution<ValueType>) -> Resolution<ValueTypeView> {
    match r {
        Resolution::Resolved(v) => Resolution::Resolved(v@),
        Resolution::Missing => Resolution::Missing,
        Resolution::Ambiguous => Resolution::Ambiguous,
        Resolution::Unsupported => Resolution::Unsupported,
    }
}

/// A failure carried over to another kind of result.
pub open spec fn failure<A, B>(r: Resolution<A>) -> Resolution<B> {
    match r {
        Resolution::Missing => Resolution::Missing,
        Resolution::Ambiguous => Resolution::Ambiguous,
        _ => Resolution::Unsupported,
    }
}

/// The scalar type of a script declaration.
pub open spec fn script_type(ws: WorkspaceIndex, s: DeclRef) -> ValueTypeView {
    ValueTypeView::Known(TypeRefView { name: string_bytes(ws.decl(s).name), array: false })
}

/// The script named `name`, as an expression.
pub open spec fn script_resolution_spec(ws: WorkspaceIndex, name: Seq<u8>) -> Resolution<ExpressionResolutionView> {
    match unique_script_spec(ws, name) {
        Resolution::Resolved(s) => Resolution::Resolved(ExpressionResolutionView::Script(s)),
        other => failure(other),
    }
}

/// The member named `member` of the type named `type_name`.
pub open spec fn named_type_member_spec(ws: WorkspaceIndex, cur: int, ty: Seq<u8>, member: Seq<u8>) -> Resolution<DeclRef> {
    match members_of_type_spec(ws, cur, ty) {
        Resolution::Resolved(ds) => named_outcome_spec(ws, ds, member),
        Resolution::Ambiguous => Resolution::Ambiguous,
        _ => Resolution::Unsupported,
    }
}

/// The member named `member` of what a receiver denotes: a member of the
/// declared type of a declaration or of the type of a value, or a global
/// function of a script.
pub open spec fn member_spec(ws: WorkspaceIndex, cur: int, receiver: ExpressionResolutionView, member: Seq<u8>) -> Resolution<
    DeclRef,
> {
    match receiver {
        ExpressionResolutionView::Declaration(d) => match ws.decl(d).ty {
            Some(t) => if t.array {
                Resolution::Unsupported
            } else {
                named_type_member_spec(ws, cur, string_bytes(t.name), member)
            },
            None => Resolution::Unsupported,
        },
        ExpressionResolutionView::Value(ValueTypeView::Known(t)) => if t.array {
            Resolution::Unsupported
        } else {
            named_type_member_spec(ws, cur, t.name, member)
        },
        ExpressionResolutionView::Value(_) => Resolution::Unsupported,
        ExpressionResolutionView::Script(s) => named_outcome_spec(
            ws,
            selected(ws, s.document as int, FilterSpec::GlobalFunctionOf(string_bytes(ws.decl(s).name))),
            member,
        ),
    }
}

/// The type of a literal.
pub open spec fn literal_type(kind: SemanticLiteralKind) -> ValueTypeView {
    match kind {
        SemanticLiteralKind::Bool => known_view("Bool"),
        SemanticLiteralKind::Int => known_view("Int"),
        SemanticLiteralKind::Float => known_view("Float"),
        SemanticLiteralKind::String => known_view("String"),
        SemanticLiteralKind::NoneLiteral => ValueTypeView::NoneValue,
    }
}

/// What an identifier denotes: `Self` is a value of the document's script,
/// `Parent` one of its parent script; any other name is what is visible
/// there, a script reached through a script declaration, or else a script of
/// that name.
pub open spec fn identifier_spec(ws: WorkspaceIndex, cur: int, name: Seq<u8>, offset: usize) -> Resolution<
    ExpressionResolutionView,
> {
    let doc = ws.documents@[cur].semantic;
    if same_ignoring_case(name, "self".spec_bytes()) {
        match doc.script_name {
            None => Resolution::Unsupported,
            Some(s) => {
                let effective = match unique_script_spec(ws, string_bytes(s)) {
                    Resolution::Resolved(d) => string_bytes(ws.decl(d).name),
                    _ => string_bytes(s),
                };
                Resolution::Resolved(
                    ExpressionResolutionView::Value(
                        ValueTypeView::Known(TypeRefView { name: effective, array: false }),
                    ),
                )
            },
        }
    } else if same_ignoring_case(name, "parent".spec_bytes()) {
        match doc.parent_script {
            None => Resolution::Unsupported,
            Some(p) => match unique_script_spec(ws, string_bytes(p)) {
                Resolution::Resolved(d) => Resolution::Resolved(ExpressionResolutionView::Value(script_type(ws, d))),
                Resolution::Ambiguous => Resolution::Ambiguous,
                _ => Resolution::Unsupported,
            },
        }
    } else {
        match visible_name_spec(ws, cur, name, offset) {
            Resolution::Resolved(d) => if ws.decl(d).kind == DeclarationKind::Script {
                script_resolution_spec(ws, string_bytes(ws.decl(d).name))
            } else {
                Resolution::Resolved(ExpressionResolutionView::Declaration(d))
            },
            Resolution::Ambiguous => Resolution::Ambiguous,
            Resolution::Missing => script_resolution_spec(ws, name),
            Resolution::Unsupported => match script_resolution_spec(ws, name) {
                Resolution::Resolved(v) => Resolution::Resolved(v),
                Resolution::Ambiguous => Resolution::Ambiguous,
                _ => Resolution::Unsupported,
            },
        }
    }
}

/// What an expression denotes (`resolve_expression`); nesting deeper than
/// `MAX_EXPRESSION_DEPTH` is unsupported.
pub open spec fn resolve_spec(ws: WorkspaceIndex, cur: int, e: SemanticExpression, depth: int) -> Resolution<
    ExpressionResolutionView,
>
    decreases e, 0int,
{
    if depth >= MAX_EXPRESSION_DEPTH {
        Resolution::Unsupported
    } else {
        match e {
            SemanticExpression::Identifier { name, byte_offset, .. } => identifier_spec(
                ws,
                cur,
                string_bytes(name),
                byte_offset,
            ),
            SemanticExpression::Member { object, member, .. } => match resolve_spec(ws, cur, *object, depth + 1) {
                Resolution::Resolved(receiver) => match member_spec(ws, cur, receiver, string_bytes(member)) {
                    Resolution::Resolved(d) => Resolution::Resolved(ExpressionResolutionView::Declaration(d)),
                    other => failure(other),
                },
                Resolution::Ambiguous => Resolution::Ambiguous,
                _ => Resolution::Unsupported,
            },
            SemanticExpression::Call { function, .. } => match resolve_spec(ws, cur, *function, depth + 1) {
                Resolution::Resolved(ExpressionResolutionView::Declaration(f)) => {
                    let kind = ws.decl(f).kind;
                    if kind == DeclarationKind::Function || kind == DeclarationKind::Event {
                        Resolution::Resolved(
                            ExpressionResolutionView::Value(
                                match ws.decl(f).ty {
                                    Some(t) => ValueTypeView::Known(t@),
                                    None => ValueTypeView::Void,
                                },
                            ),
                        )
                    } else {
                        Resolution::Unsupported
                    }
                },
                Resolution::Resolved(_) => Resolution::Unsupported,
                other => failure(other),
            },
            SemanticExpression::Subscript { array, .. } => match type_spec(ws, cur, *array, depth + 1) {
                Resolution::Resolved(ValueTypeView::Known(t)) => if !t.array {
                    Resolution::Unsupported
                } else {
                    Resolution::Resolved(
                        ExpressionResolutionView::Value(
                            ValueTypeView::Known(TypeRefView { name: t.name, array: false }),
                        ),
                    )
                },
                Resolution::Resolved(_) => Resolution::Unsupported,
                other => failure(other),
            },
            SemanticExpression::Cast { ty, .. } => Resolution::Resolved(
                ExpressionResolutionView::Value(ValueTypeView::Known(ty@)),
            ),
            SemanticExpression::New { ty, .. } => Resolution::Resolved(
                ExpressionResolutionView::Value(ValueTypeView::Known(ty@)),
            ),
            SemanticExpression::TypeTest { .. } => Resolution::Resolved(
                ExpressionResolutionView::Value(known_view("Bool")),
            ),
            SemanticExpression::Parenthesized { value, .. } => resolve_spec(ws, cur, *value, depth + 1),
            SemanticExpression::Literal { kind, .. } => Resolution::Resolved(
                ExpressionResolutionView::Value(literal_type(kind)),
            ),
            SemanticExpression::Unary { operator, argument, .. } => match type_spec(ws, cur, *argument, depth + 1) {
                Resolution::Resolved(a) => match unary_result_spec(operator, a) {
                    Some(v) => Resolution::Resolved(ExpressionResolutionView::Value(v)),
                    None => Resolution::Unsupported,
                },
                other => failure(other),
            },
            SemanticExpression::Binary { left, operator, right, .. } => match type_spec(ws, cur, *left, depth + 1) {
                Resolution::Resolved(l) => match type_spec(ws, cur, *right, depth + 1) {
                    Resolution::Resolved(r) => match binary_result_spec(operator, l, r) {
                        Some(v) => Resolution::Resolved(ExpressionResolutionView::Value(v)),
                        None => Resolution::Unsupported,
                    },
                    other => failure(other),
                },
                other => failure(other),
            },
        }
    }
}

/// The type of an expression's value (`expression_type_outcome`): calling
/// a function or event by name gives no value, a declaration its declared
/// type, a script its own type.
pub open spec fn type_spec(ws: WorkspaceIndex, cur: int, e: SemanticExpression, depth: int) -> Resolution<
    ValueTypeView,
>
    decreases e, 1int,
{
    match resolve_spec(ws, cur, e, depth) {
        Resolution::Resolved(ExpressionResolutionView::Declaration(d)) => {
            let kind = ws.decl(d).kind;
            if kind == DeclarationKind::Function || kind == DeclarationKind::Event {
                Resolution::Resolved(ValueTypeView::Void)
            } else {
                match ws.decl(d).ty {
                    Some(t) => Resolution::Resolved(ValueTypeView::Known(t@)),
                    None => Resolution::Unsupported,
                }
            }
        },
        Resolution::Resolved(ExpressionResolutionView::Script(s)) => Resolution::Resolved(script_type(ws, s)),
        Resolution::Resolved(ExpressionResolutionView::Value(v)) => Resolution::Resolved(v),
        other => failure(other),
    }
}

fn fail<A, B>(r: Resolution<A>) -> (out: Resolution<B>)
    ensures
        out == failure::<A, B>(r),
{
    match r {
        Resolution::Missing => Resolution::Missing,
        Resolution::Ambiguous => Resolution::Ambiguous,
        _ => Resolution::Unsupported,
    }
}

impl WorkspaceIndex {
    /// The script named `name`, as an expression (`script_resolution`).
    pub fn script_resolution(&self, name: &[u8]) -> (r: Resolution<ExpressionResolution>)
        ensures
            resolution_view(r) == script_resolution_spec(*self, name@),
            r matches Resolution::Resolved(ExpressionResolution::Script(s)) ==> self.valid_ref(s),
    {
        match self.unique_script_outcome(name) {
            Resolution::Resolved(s) => Resolution::Resolved(ExpressionResolution::Script(s)),
            other => fail(other),
        }
    }

    /// The member named `member` of the type named `ty` (`resolve_named_type_member`).
    pub fn resolve_named_type_member(&self, cur: usize, ty: &[u8], member: &[u8]) -> (r: Resolution<DeclRef>)
        requires
            cur < self.documents@.len(),
        ensures
            r == named_type_member_spec(*self, cur as int, ty@, member@),
            r matches Resolution::Resolved(d) ==> self.valid_ref(d),
    {
        match self.members_of_type_outcome(cur, ty) {
            Resolution::Resolved(ds) => {
                proof {
                    crate::workspace::lemma_named_outcome_valid(*self, ds@, member@);
                }
                self.named_outcome(&ds, member)
            },
            Resolution::Ambiguous => Resolution::Ambiguous,
            _ => Resolution::Unsupported,
        }
    }

    /// The member named `member` of what a receiver denotes
    /// (`resolve_member_from_resolution`).
    pub fn resolve_member_from_resolution(&self, cur: usize, receiver: &ExpressionResolution, member: &[u8]) -> (r: Resolution<
        DeclRef,
    >)
        requires
            cur < self.documents@.len(),
            receiver matches ExpressionResolution::Declaration(d) ==> self.valid_ref(*d),
            receiver matches ExpressionResolution::Script(s) ==> self.valid_ref(*s),
        ensures
            r == member_spec(*self, cur as int, receiver@, member@),
            r matches Resolution::Resolved(d) ==> self.valid_ref(d),
    {
        match receiver {
            ExpressionResolution::Declaration(d) => {
                match &self.documents[d.document].semantic.declarations[d.declaration].ty {
                    Some(t) => if t.array {
                        Resolution::Unsupported
                    } else {
                        self.resolve_named_type_member(cur, t.name.as_str().as_bytes(), member)
                    },
                    None => Resolution::Unsupported,
                }
            },
            ExpressionResolution::Value(ValueType::Known(t)) => if t.array {
                Resolution::Unsupported
            } else {
                self.resolve_named_type_member(cur, t.name.as_str().as_bytes(), member)
            },
            ExpressionResolution::Value(_) => Resolution::Unsupported,
            ExpressionResolution::Script(s) => {
                let owner = self.documents[s.document].semantic.declarations[s.declaration].name.as_str().as_bytes();
                let refs = self.select_declarations(s.document, &DeclFilter::GlobalFunctionOf(owner));
                proof {
                    crate::workspace::lemma_named_outcome_valid(*self, refs@, member@);
                }
                self.named_outcome(&refs, member)
            },
        }
    }

    fn resolve_identifier(&self, cur: usize, name: &String, offset: usize) -> (r: Resolution<ExpressionResolution>)
        requires
            cur < self.documents@.len(),
        ensures
            resolution_view(r) == identifier_spec(*self, cur as int, string_bytes(*name), offset),
            r matches Resolution::Resolved(ExpressionResolution::Declaration(d)) ==> self.valid_ref(d),
            r matches Resolution::Resolved(ExpressionResolution::Script(s)) ==> self.valid_ref(s),
    {
        let doc = &self.documents[cur].semantic;
        if str_equal_ignoring_case(name.as_str(), "self") {
            let script_name = match &doc.script_name {
                Some(s) => s,
                None => return Resolution::Unsupported,
            };
            let effective = match self.unique_script_outcome(script_name.as_str().as_bytes()) {
                Resolution::Resolved(d) => self.documents[d.document].semantic.declarations[d.declaration].name.clone(),
                _ => script_name.clone(),
            };
            return Resolution::Resolved(
                ExpressionResolution::Value(ValueType::Known(TypeRef { name: effective, array: false })),
            );
        }
        if str_equal_ignoring_case(name.as_str(), "parent") {
            let parent = match &doc.parent_script {
                Some(p) => p,
                None => return Resolution::Unsupported,
            };
            return match self.unique_script_outcome(parent.as_str().as_bytes()) {
                Resolution::Resolved(d) => Resolution::Resolved(
                    ExpressionResolution::Value(
                        ValueType::Known(
                            TypeRef {
                                name: self.documents[d.document].semantic.declarations[d.declaration].name.clone(),
                                array: false,
                            },
                        ),
                    ),
                ),
                Resolution::Ambiguous => Resolution::Ambiguous,
                _ => Resolution::Unsupported,
            };
        }
        match self.resolve_visible_name_outcome(cur, name.as_str().as_bytes(), offset) {
            Resolution::Resolved(d) => {
                let decl = &self.documents[d.document].semantic.declarations[d.declaration];
                if decl.kind == DeclarationKind::Script {
                    self.script_resolution(decl.name.as_str().as_bytes())
                } else {
                    Resolution::Resolved(ExpressionResolution::Declaration(d))
                }
            },
            Resolution::Ambiguous => Resolution::Ambiguous,
            Resolution::Missing => self.script_resolution(name.as_str().as_bytes()),
            Resolution::Unsupported => match self.script_resolution(name.as_str().as_bytes()) {
                Resolution::Resolved(v) => Resolution::Resolved(v),
                Resolution::Ambiguous => Resolution::Ambiguous,
                _ => Resolution::Unsupported,
            },
        }
    }

    /// What an expression denotes (`resolve_expression`).
    pub fn resolve_expression(&self, cur: usize, e: &SemanticExpression, depth: usize) -> (r: Resolution<
        ExpressionResolution,
    >)
        requires
            cur < self.documents@.len(),
        ensures
            resolution_view(r) == resolve_spec(*self, cur as int, *e, depth as int),
            r matches Resolution::Resolved(ExpressionResolution::Declaration(d)) ==> self.valid_ref(d),
            r matches Resolution::Resolved(ExpressionResolution::Script(s)) ==> self.valid_ref(s),
        decreases e, 0int,
    {
        if depth >= MAX_EXPRESSION_DEPTH {
            return Resolution::Unsupported;
        }
        let next = depth + 1;
        match e {
            SemanticExpression::Identifier { name, byte_offset, .. } => self.resolve_identifier(cur, name, *byte_offset),
            SemanticExpression::Member { object, member, .. } => {
                match self.resolve_expression(cur, object, next) {
                    Resolution::Resolved(receiver) => {
                        match self.resolve_member_from_resolution(cur, &receiver, member.as_str().as_bytes()) {
                            Resolution::Resolved(d) => Resolution::Resolved(ExpressionResolution::Declaration(d)),
                            other => fail(other),
                        }
                    },
                    Resolution::Ambiguous => Resolution::Ambiguous,
                    _ => Resolution::Unsupported,
                }
            },
            SemanticExpression::Call { function, .. } => {
                match self.resolve_expression(cur, function, next) {
                    Resolution::Resolved(ExpressionResolution::Declaration(f)) => {
                        let decl = &self.documents[f.document].semantic.declarations[f.declaration];
                        if decl.kind == DeclarationKind::Function || decl.kind == DeclarationKind::Event {
                            let value = match &decl.ty {
                                Some(t) => ValueType::Known(t.copy()),
                                None => ValueType::Void,
                            };
                            Resolution::Resolved(ExpressionResolution::Value(value))
                        } else {
                            Resolution::Unsupported
                        }
                    },
                    Resolution::Resolved(_) => Resolution::Unsupported,
                    other => fail(other),
                }
            },
            SemanticExpression::Subscript { array, .. } => {
                match self.expression_type_outcome(cur, array, next) {
                    Resolution::Resolved(ValueType::Known(t)) => if !t.array {
                        Resolution::Unsupported
                    } else {
                        Resolution::Resolved(
                            ExpressionResolution::Value(ValueType::Known(TypeRef { name: t.name, array: false })),
                        )
                    },
                    Resolution::Resolved(_) => Resolution::Unsupported,
                    other => fail(other),
                }
            },
            SemanticExpression::Cast { ty, .. } => Resolution::Resolved(
                ExpressionResolution::Value(ValueType::Known(ty.copy())),
            ),
            SemanticExpression::New { ty, .. } => Resolution::Resolved(
                ExpressionResolution::Value(ValueType::Known(ty.copy())),
            ),
            SemanticExpression::TypeTest { .. } => Resolution::Resolved(ExpressionResolution::Value(known("Bool"))),
            SemanticExpression::Parenthesized { value, .. } => self.resolve_expression(cur, value, next),
            SemanticExpression::Literal { kind, .. } => {
                let value = match kind {
                    SemanticLiteralKind::Bool => known("Bool"),
                    SemanticLiteralKind::Int => known("Int"),
                    SemanticLiteralKind::Float => known("Float"),
                    SemanticLiteralKind::String => known("String"),
                    SemanticLiteralKind::NoneLiteral => ValueType::NoneValue,
                };
                Resolution::Resolved(ExpressionResolution::Value(value))
            },
            SemanticExpression::Unary { operator, argument, .. } => {
                match self.expression_type_outcome(cur, argument, next) {
                    Resolution::Resolved(a) => match unary_result(*operator, &a) {
                        Some(v) => Resolution::Resolved(ExpressionResolution::Value(v)),
                        None => Resolution::Unsupported,
                    },
                    other => fail(other),
                }
            },
            SemanticExpression::Binary { left, operator, right, .. } => {
                let l = match self.expression_type_outcome(cur, left, next) {
                    Resolution::Resolved(l) => l,
                    other => return fail(other),
                };
                let r = match self.expression_type_outcome(cur, right, next) {
                    Resolution::Resolved(r) => r,
                    other => return fail(other),
                };
                match binary_result(*operator, &l, &r) {
                    Some(v) => Resolution::Resolved(ExpressionResolution::Value(v)),
                    None => Resolution::Unsupported,
                }
            },
        }
    }

    /// The type of an expression's value (`expression_type_outcome`).
    pub fn expression_type_outcome(&self, cur: usize, e: &SemanticExpression, depth: usize) -> (r: Resolution<
        ValueType,
    >)
        requires
            cur < self.documents@.len(),
        ensures
            value_view(r) == type_spec(*self, cur as int, *e, depth as int),
        decreases e, 1int,
    {
        match self.resolve_expression(cur, e, depth) {
            Resolution::Resolved(ExpressionResolution::Declaration(d)) => {
                let decl = &self.documents[d.document].semantic.declarations[d.declaration];
                if decl.kind == DeclarationKind::Function || decl.kind == DeclarationKind::Event {
                    Resolution::Resolved(ValueType::Void)
                } else {
                    match &decl.ty {
                        Some(t) => Resolution::Resolved(ValueType::Known(t.copy())),
                        None => Resolution::Unsupported,
                    }
                }
            },
            Resolution::Resolved(ExpressionResolution::Script(s)) => Resolution::Resolved(
                ValueType::Known(
                    TypeRef {
                        name: self.documents[s.document].semantic.declarations[s.declaration].name.clone(),
                        array: false,
                    },
                ),
            ),
            Resolution::Resolved(ExpressionResolution::Value(v)) => Resolution::Resolved(v),
            other => fail(other),
        }
    }

    /// The declaration that an expression denotes, if it is one
    /// (`resolve_expression_declaration_outcome`).
    pub fn resolve_expression_declaration_outcome(&self, cur: usize, e: &SemanticExpression) -> (r: Resolution<DeclRef>)
        requires
            cur < self.documents@.len(),
        ensures
            r == match resolve_spec(*self, cur as int, *e, 0) {
                Resolution::Resolved(ExpressionResolutionView::Declaration(d)) => Resolution::Resolved(d),
                Resolution::Resolved(_) => Resolution::Unsupported,
                other => failure(other),
            },
            r matches Resolution::Resolved(d) ==> self.valid_ref(d),
    {
        match self.resolve_expression(cur, e, 0) {
            Resolution::Resolved(ExpressionResolution::Declaration(d)) => Resolution::Resolved(d),
            Resolution::Resolved(_) => Resolution::Unsupported,
            other => fail(other),
        }
    }
}

} // verus!
