//! The statement-level sites whose types are checked, read from a syntax
//! tree: assignments, initializers and parameter defaults, returns (with
//! the return type of the enclosing function or event), conditions and
//! expression statements.
use vstd::prelude::*;
use vstd::string::StringSliceAdditionalSpecFns;
use crate::expression::{expression_of, from_node, has_expression, type_ref, type_ref_view};
use crate::line_index::{LineIndex, TextRange, line_starts_of};
use crate::semantic::{SemanticAssignmentOperator, SemanticTypeCheck, TypeRef, TypeRefView, opt_type};
use crate::syntax::{
    NodeKind, SyntaxNode, field_at, field_child, field_position, first_named_position, has_text, named_index,
    node_range, range_of, text_is,
};

verus! {

/// The assignment operator that an operator node spells.
pub open spec fn assignment_operator_of(node: SyntaxNode, b: Seq<u8>) -> Option<SemanticAssignmentOperator> {
    if text_is(node, b, "=") {
        Some(SemanticAssignmentOperator::Assign)
    } else if text_is(node, b, "+=") {
        Some(SemanticAssignmentOperator::Add)
    } else if text_is(node, b, "-=") {
        Some(SemanticAssignmentOperator::Subtract)
    } else if text_is(node, b, "*=") {
        Some(SemanticAssignmentOperator::Multiply)
    } else if text_is(node, b, "/=") {
        Some(SemanticAssignmentOperator::Divide)
    } else if text_is(node, b, "%=") {
        Some(SemanticAssignmentOperator::Modulo)
    } else {
        None
    }
}

/// The child under a field holds an expression.
pub open spec fn field_expression(node: SyntaxNode, field: &str, b: Seq<u8>) -> bool {
    field_child(node, field) matches Some(c) && has_expression(c, b)
}

/// The first named child holds an expression.
pub open spec fn first_named_expression(node: SyntaxNode, b: Seq<u8>) -> bool {
    let k = named_index(node.children@, 0);
    k < node.children@.len() && has_expression(node.children@[k], b)
}

/// The return type that holds inside a node: that of a function, none for
/// an event, else the one around it.
pub open spec fn inner_return(node: SyntaxNode, b: Seq<u8>, ret: Option<Option<TypeRefView>>) -> Option<
    Option<TypeRefView>,
> {
    if node.kind == NodeKind::FunctionDefinition {
        Some(
            match field_child(node, "return_type") {
                Some(t) => type_ref_view(t, b),
                None => None,
            },
        )
    } else if node.kind == NodeKind::EventDefinition {
        Some(None)
    } else {
        ret
    }
}

/// The kinds of statement that give a check and end the walk.
pub open spec fn is_leaf_site(kind: NodeKind) -> bool {
    kind == NodeKind::AssignmentStatement || kind == NodeKind::VariableDeclaration || kind == NodeKind::StructMember
        || kind == NodeKind::AutoPropertyDefinition || kind == NodeKind::Parameter || kind == NodeKind::ReturnStatement
        || kind == NodeKind::ExpressionStatement
}

/// The kinds of statement whose condition is checked.
pub open spec fn is_condition_site(kind: NodeKind) -> bool {
    kind == NodeKind::IfStatement || kind == NodeKind::ElseifClause || kind == NodeKind::WhileStatement
}

/// Whether a site gives a check, `ret` being the return type inside it.
pub open spec fn gives_check(node: SyntaxNode, b: Seq<u8>, ret: Option<Option<TypeRefView>>) -> bool {
    if node.kind == NodeKind::AssignmentStatement {
        &&& field_expression(node, "left", b)
        &&& field_child(node, "operator") matches Some(op) && assignment_operator_of(op, b) is Some
        &&& field_expression(node, "right", b)
    } else if node.kind == NodeKind::VariableDeclaration || node.kind == NodeKind::StructMember || node.kind
        == NodeKind::AutoPropertyDefinition {
        &&& field_child(node, "type") matches Some(t) && type_ref_view(t, b) is Some
        &&& field_expression(node, "value", b)
    } else if node.kind == NodeKind::Parameter {
        &&& field_child(node, "type") matches Some(t) && type_ref_view(t, b) is Some
        &&& field_expression(node, "default", b)
    } else if node.kind == NodeKind::ReturnStatement {
        ret is Some
    } else if is_condition_site(node.kind) {
        field_expression(node, "condition", b)
    } else if node.kind == NodeKind::ExpressionStatement {
        first_named_expression(node, b)
    } else {
        false
    }
}

/// `c` is the check of a site.
pub open spec fn check_of(
    node: SyntaxNode,
    b: Seq<u8>,
    starts: Seq<usize>,
    ret: Option<Option<TypeRefView>>,
    c: SemanticTypeCheck,
) -> bool {
    let cs = node.children@;
    if node.kind == NodeKind::AssignmentStatement {
        c matches SemanticTypeCheck::Assignment { target, operator, operator_range, value } && expression_of(
            cs[field_at(node, "left")],
            b,
            starts,
            target,
        ) && Some(operator) == assignment_operator_of(cs[field_at(node, "operator")], b) && operator_range
            == node_range(starts, b, cs[field_at(node, "operator")]) && expression_of(
            cs[field_at(node, "right")],
            b,
            starts,
            value,
        )
    } else if node.kind == NodeKind::VariableDeclaration || node.kind == NodeKind::StructMember || node.kind
        == NodeKind::AutoPropertyDefinition {
        c matches SemanticTypeCheck::Initializer { expected, value } && Some(expected@) == type_ref_view(
            cs[field_at(node, "type")],
            b,
        ) && expression_of(cs[field_at(node, "value")], b, starts, value)
    } else if node.kind == NodeKind::Parameter {
        c matches SemanticTypeCheck::Initializer { expected, value } && Some(expected@) == type_ref_view(
            cs[field_at(node, "type")],
            b,
        ) && expression_of(cs[field_at(node, "default")], b, starts, value)
    } else if node.kind == NodeKind::ReturnStatement {
        let k = named_index(cs, 0);
        c matches SemanticTypeCheck::Return { expected, value, range } && Some(opt_type(expected)) == ret && range
            == node_range(starts, b, node) && if k < cs.len() && has_expression(cs[k], b) {
            value matches Some(v) && expression_of(cs[k], b, starts, v)
        } else {
            value is None
        }
    } else if is_condition_site(node.kind) {
        c matches SemanticTypeCheck::Condition { value } && expression_of(
            cs[field_at(node, "condition")],
            b,
            starts,
            value,
        )
    } else {
        c matches SemanticTypeCheck::Expression { value } && expression_of(cs[named_index(cs, 0)], b, starts, value)
    }
}

/// The sites that give a check, in the order of the walk, each with the
/// return type inside it.
pub open spec fn sites(node: SyntaxNode, b: Seq<u8>, ret: Option<Option<TypeRefView>>) -> Seq<
    (SyntaxNode, Option<Option<TypeRefView>>),
>
    decreases node, 1int,
{
    let r = inner_return(node, b, ret);
    let own = if gives_check(node, b, r) {
        seq![(node, r)]
    } else {
        Seq::empty()
    };
    if is_leaf_site(node.kind) {
        own
    } else {
        own + sites_upto(node.children@, node.children@.len() as int, b, r)
    }
}

/// The sites of the first `k` named children.
pub open spec fn sites_upto(cs: Seq<SyntaxNode>, k: int, b: Seq<u8>, ret: Option<Option<TypeRefView>>) -> Seq<
    (SyntaxNode, Option<Option<TypeRefView>>),
>
    decreases cs, k,
{
    if k <= 0 || k > cs.len() {
        Seq::empty()
    } else if cs[k - 1].named {
        sites_upto(cs, k - 1, b, ret) + sites(cs[k - 1], b, ret)
    } else {
        sites_upto(cs, k - 1, b, ret)
    }
}

pub open spec fn ret_view(r: Option<Option<TypeRef>>) -> Option<Option<TypeRefView>> {
    match r {
        Some(t) => Some(opt_type(t)),
        None => None,
    }
}

/// `out` holds the checks of the sites, one for each, in order.
pub open spec fn checks_match(
    out: Seq<SemanticTypeCheck>,
    s: Seq<(SyntaxNode, Option<Option<TypeRefView>>)>,
    b: Seq<u8>,
    starts: Seq<usize>,
) -> bool {
    out.len() == s.len() && forall|i: int| 0 <= i < s.len() ==> #[trigger] check_of(s[i].0, b, starts, s[i].1, out[i])
}

fn field_expr(node: &SyntaxNode, field: &str, source: &str, index: &LineIndex) -> (r: Option<
    crate::semantic::SemanticExpression,
>)
    requires
        node.fits(source.spec_bytes().len() as int),
        index@ == line_starts_of(source.spec_bytes()),
    ensures
        r.is_some() == field_expression(*node, field, source.spec_bytes()),
        r matches Some(e) ==> expression_of(node.children@[field_at(*node, field)], source.spec_bytes(), index@, e),
{
    let k = field_position(node, field);
    if k < node.children.len() {
        assert(node.children@[k as int].fits(source.spec_bytes().len() as int));
        from_node(&node.children[k], source, index)
    } else {
        None
    }
}

fn field_type(node: &SyntaxNode, field: &str, source: &str) -> (r: Option<TypeRef>)
    requires
        node.fits(source.spec_bytes().len() as int),
    ensures
        r.is_some() == (field_child(*node, field) matches Some(t) && type_ref_view(t, source.spec_bytes()) is Some),
        r matches Some(t) ==> Some(t@) == type_ref_view(node.children@[field_at(*node, field)], source.spec_bytes()),
{
    let k = field_position(node, field);
    if k < node.children.len() {
        assert(node.children@[k as int].fits(source.spec_bytes().len() as int));
        type_ref(&node.children[k], source)
    } else {
        None
    }
}

fn operator_of(node: &SyntaxNode, source: &str) -> (r: Option<SemanticAssignmentOperator>)
    requires
        node.start <= node.end <= source.spec_bytes().len(),
    ensures
        r == assignment_operator_of(*node, source.spec_bytes()),
{
    if has_text(node, source, "=") {
        Some(SemanticAssignmentOperator::Assign)
    } else if has_text(node, source, "+=") {
        Some(SemanticAssignmentOperator::Add)
    } else if has_text(node, source, "-=") {
        Some(SemanticAssignmentOperator::Subtract)
    } else if has_text(node, source, "*=") {
        Some(SemanticAssignmentOperator::Multiply)
    } else if has_text(node, source, "/=") {
        Some(SemanticAssignmentOperator::Divide)
    } else if has_text(node, source, "%=") {
        Some(SemanticAssignmentOperator::Modulo)
    } else {
        None
    }
}

fn copy_return(r: &Option<Option<TypeRef>>) -> (c: Option<Option<TypeRef>>)
    ensures
        ret_view(c) == ret_view(*r),
{
    match r {
        Some(Some(t)) => Some(Some(TypeRef::copy(t))),
        Some(None) => Some(None),
        None => None,
    }
}

/// The check of a site, if it gives one.
fn site_check(node: &SyntaxNode, source: &str, index: &LineIndex, ret: &Option<Option<TypeRef>>) -> (r: Option<
    SemanticTypeCheck,
>)
    requires
        node.fits(source.spec_bytes().len() as int),
        index@ == line_starts_of(source.spec_bytes()),
    ensures
        r.is_some() == gives_check(*node, source.spec_bytes(), ret_view(*ret)),
        r matches Some(c) ==> check_of(*node, source.spec_bytes(), index@, ret_view(*ret), c),
{
    let ghost b = source.spec_bytes();
    if node.kind == NodeKind::AssignmentStatement {
        let target = match field_expr(node, "left", source, index) {
            Some(t) => t,
            None => return None,
        };
        let k = field_position(node, "operator");
        if k >= node.children.len() {
            return None;
        }
        assert(node.children@[k as int].fits(b.len() as int));
        let operator = match operator_of(&node.children[k], source) {
            Some(o) => o,
            None => return None,
        };
        let operator_range = range_of(&node.children[k], source, index);
        let value = match field_expr(node, "right", source, index) {
            Some(v) => v,
            None => return None,
        };
        Some(SemanticTypeCheck::Assignment { target, operator, operator_range, value })
    } else if node.kind == NodeKind::VariableDeclaration || node.kind == NodeKind::StructMember || node.kind
        == NodeKind::AutoPropertyDefinition || node.kind == NodeKind::Parameter {
        let value_field = if node.kind == NodeKind::Parameter {
            "default"
        } else {
            "value"
        };
        let expected = match field_type(node, "type", source) {
            Some(t) => t,
            None => return None,
        };
        match field_expr(node, value_field, source, index) {
            Some(value) => Some(SemanticTypeCheck::Initializer { expected, value }),
            None => None,
        }
    } else if node.kind == NodeKind::ReturnStatement {
        let expected = match ret {
            Some(t) => match t {
                Some(x) => Some(TypeRef::copy(x)),
                None => None,
            },
            None => return None,
        };
        let k = first_named_position(node);
        let value = if k < node.children.len() {
            assert(node.children@[k as int].fits(b.len() as int));
            from_node(&node.children[k], source, index)
        } else {
            None
        };
        Some(SemanticTypeCheck::Return { expected, value, range: range_of(node, source, index) })
    } else if node.kind == NodeKind::IfStatement || node.kind == NodeKind::ElseifClause || node.kind
        == NodeKind::WhileStatement {
        match field_expr(node, "condition", source, index) {
            Some(value) => Some(SemanticTypeCheck::Condition { value }),
            None => None,
        }
    } else if node.kind == NodeKind::ExpressionStatement {
        let k = first_named_position(node);
        if k < node.children.len() {
            assert(node.children@[k as int].fits(b.len() as int));
            match from_node(&node.children[k], source, index) {
                Some(value) => Some(SemanticTypeCheck::Expression { value }),
                None => None,
            }
        } else {
            None
        }
    } else {
        None
    }
}

/// Appends the checks of a subtree (`collect` of the type checks).
pub fn collect(
    node: &SyntaxNode,
    source: &str,
    index: &LineIndex,
    ret: &Option<Option<TypeRef>>,
    out: &mut Vec<SemanticTypeCheck>,
)
    requires
        node.fits(source.spec_bytes().len() as int),
        index@ == line_starts_of(source.spec_bytes()),
    ensures
        final(out)@.len() >= old(out)@.len(),
        final(out)@.subrange(0, old(out)@.len() as int) == old(out)@,
        checks_match(
            final(out)@.subrange(old(out)@.len() as int, final(out)@.len() as int),
            sites(*node, source.spec_bytes(), ret_view(*ret)),
            source.spec_bytes(),
            index@,
        ),
    decreases node,
{
    let ghost b = source.spec_bytes();
    let ghost start = out@;
    let inner: Option<Option<TypeRef>> = if node.kind == NodeKind::FunctionDefinition {
        Some(field_type(node, "return_type", source))
    } else if node.kind == NodeKind::EventDefinition {
        Some(None)
    } else {
        copy_return(ret)
    };
    proof {
        if node.kind == NodeKind::FunctionDefinition {
            assert(ret_view(inner) == inner_return(*node, b, ret_view(*ret)));
        }
    }
    let ghost r = ret_view(inner);
    match site_check(node, source, index, &inner) {
        Some(c) => out.push(c),
        None => {},
    }
    let ghost mid = out@;
    proof {
        let own = if gives_check(*node, b, r) {
            seq![(*node, r)]
        } else {
            Seq::empty()
        };
        assert(checks_match(mid.subrange(start.len() as int, mid.len() as int), own, b, index@));
    }
    if node.kind == NodeKind::AssignmentStatement || node.kind == NodeKind::VariableDeclaration || node.kind
        == NodeKind::StructMember || node.kind == NodeKind::AutoPropertyDefinition || node.kind
        == NodeKind::Parameter || node.kind == NodeKind::ReturnStatement || node.kind
        == NodeKind::ExpressionStatement {
        assert(out@.subrange(0, start.len() as int) =~= start);
        return;
    }
    let mut i: usize = 0;
    assert(mid.subrange(mid.len() as int, mid.len() as int) =~= Seq::<SemanticTypeCheck>::empty());
    while i < node.children.len()
        invariant
            node.fits(b.len() as int),
            b == source.spec_bytes(),
            index@ == line_starts_of(b),
            ret_view(inner) == r,
            0 <= i <= node.children@.len(),
            out@.len() >= mid.len(),
            out@.subrange(0, mid.len() as int) == mid,
            checks_match(out@.subrange(mid.len() as int, out@.len() as int), sites_upto(node.children@, i as int, b, r), b, index@),
        decreases node.children@.len() - i,
    {
        let ghost before = out@;
        if node.children[i].named {
            assert(node.children@[i as int].fits(b.len() as int));
            collect(&node.children[i], source, index, &inner, out);
            proof {
                let prev = before.subrange(mid.len() as int, before.len() as int);
                let added = out@.subrange(before.len() as int, out@.len() as int);
                let all = out@.subrange(mid.len() as int, out@.len() as int);
                assert(out@.subrange(0, before.len() as int) == before);
                assert(all =~= prev + added);
                assert(out@.subrange(0, mid.len() as int) =~= before.subrange(0, mid.len() as int));
                let s1 = sites_upto(node.children@, i as int, b, r);
                let s2 = sites(node.children@[i as int], b, r);
                assert(sites_upto(node.children@, i + 1, b, r) == s1 + s2);
                assert forall|j: int| 0 <= j < (s1 + s2).len() implies #[trigger] check_of(
                    (s1 + s2)[j].0,
                    b,
                    index@,
                    (s1 + s2)[j].1,
                    all[j],
                ) by {
                    if j < s1.len() {
                        assert((s1 + s2)[j] == s1[j] && all[j] == prev[j]);
                    } else {
                        assert((s1 + s2)[j] == s2[j - s1.len()] && all[j] == added[j - s1.len()]);
                    }
                }
            }
        } else {
            assert(sites_upto(node.children@, i + 1, b, r) == sites_upto(node.children@, i as int, b, r));
        }
        i = i + 1;
    }
    proof {
        let own = if gives_check(*node, b, r) {
            seq![(*node, r)]
        } else {
            Seq::empty()
        };
        let rest = sites_upto(node.children@, node.children@.len() as int, b, r);
        let first = mid.subrange(start.len() as int, mid.len() as int);
        let second = out@.subrange(mid.len() as int, out@.len() as int);
        let all = out@.subrange(start.len() as int, out@.len() as int);
        assert(all =~= first + second);
        assert(out@.subrange(0, start.len() as int) =~= mid.subrange(0, start.len() as int));
        assert(sites(*node, b, ret_view(*ret)) == own + rest);
        assert forall|j: int| 0 <= j < (own + rest).len() implies #[trigger] check_of(
            (own + rest)[j].0,
            b,
            index@,
            (own + rest)[j].1,
            all[j],
        ) by {
            if j < own.len() {
                assert((own + rest)[j] == own[j] && all[j] == first[j]);
            } else {
                assert((own + rest)[j] == rest[j - own.len()] && all[j] == second[j - own.len()]);
            }
        }
    }
}

/// The type checks of a document's syntax tree (`collect_type_checks`).
pub fn collect_type_checks(root: &SyntaxNode, source: &str, index: &LineIndex) -> (r: Vec<SemanticTypeCheck>)
    requires
        root.fits(source.spec_bytes().len() as int),
        index@ == line_starts_of(source.spec_bytes()),
    ensures
        checks_match(r@, sites(*root, source.spec_bytes(), None), source.spec_bytes(), index@),
{
    let mut out: Vec<SemanticTypeCheck> = Vec::new();
    collect(root, source, index, &None, &mut out);
    assert(out@.subrange(0, out@.len() as int) =~= out@);
    out
}

} // verus!
