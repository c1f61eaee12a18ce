//! The identifier occurrences of a syntax tree that are not declaration
//! names: what kind of use each is (a reference, a type, an import, a
//! member of a receiver, the label of a named argument) and the receiver of
//! a member.
use vstd::prelude::*;
use vstd::string::StringSliceAdditionalSpecFns;
use crate::expression::{expression_of, from_node, has_expression};
use crate::line_index::{LineIndex, TextRange, line_starts_of};
use crate::semantic::{Declaration, SemanticOccurrence, SemanticOccurrenceKind};
use crate::syntax::{NodeKind, SyntaxNode, field_at, field_position, node_range, node_text, range_of, text};
use crate::text::string_bytes;

verus! {

/// What the parent of a node says of an identifier there.
pub struct OccurrenceContext {
    pub kind: SemanticOccurrenceKind,
    /// Inside a type position, through qualified identifiers.
    pub in_type: bool,
    /// The node is the member of a member expression.
    pub member: bool,
    /// The receiver of that member, when the parent has one.
    pub object: Option<SyntaxNode>,
}

/// The context of the root, which has no parent.
pub open spec fn root_context() -> OccurrenceContext {
    OccurrenceContext { kind: SemanticOccurrenceKind::Reference, in_type: false, member: false, object: None }
}

/// Whether child `i` of `p` is in a type position, given whether `p` is.
pub open spec fn child_in_type(p: SyntaxNode, i: int, p_in_type: bool) -> bool {
    ||| p.kind == NodeKind::Type
    ||| (p.kind == NodeKind::ScriptDeclaration || p.kind == NodeKind::ImportDeclaration || p.kind
        == NodeKind::NewExpression) && (field_at(p, "parent") == i || field_at(p, "module") == i || field_at(p, "type")
        == i)
    ||| p.kind == NodeKind::QualifiedIdentifier && p_in_type
}

/// The context of child `i` of `p`.
pub open spec fn child_context(p: SyntaxNode, i: int, p_in_type: bool) -> OccurrenceContext {
    let in_type = child_in_type(p, i, p_in_type);
    let member = field_at(p, "member") == i;
    let kind = if p.kind == NodeKind::Argument && field_at(p, "name") == i {
        SemanticOccurrenceKind::NamedArgument
    } else if member {
        SemanticOccurrenceKind::Member
    } else if p.kind == NodeKind::ImportDeclaration && field_at(p, "module") == i {
        SemanticOccurrenceKind::Import
    } else if in_type {
        SemanticOccurrenceKind::Type
    } else {
        SemanticOccurrenceKind::Reference
    };
    let o = field_at(p, "object");
    OccurrenceContext {
        kind,
        in_type,
        member,
        object: if member && o < p.children@.len() {
            Some(p.children@[o])
        } else {
            None
        },
    }
}

/// Whether an identifier with this context has a receiver to read: one
/// that is not a member has none to read, a member needs its receiver to
/// be an expression.
pub open spec fn receiver_readable(ctx: OccurrenceContext, b: Seq<u8>) -> bool {
    !ctx.member || (ctx.object matches Some(o) && has_expression(o, b))
}

/// The identifiers of a subtree that are occurrences, in order, with their
/// contexts: not at a declaration's name, with readable text and receiver.
pub open spec fn occurrence_sites(
    node: SyntaxNode,
    b: Seq<u8>,
    starts: Seq<usize>,
    names: Seq<TextRange>,
    ctx: OccurrenceContext,
) -> Seq<(SyntaxNode, OccurrenceContext)>
    decreases node, 1int,
{
    if node.kind == NodeKind::Identifier || node.kind == NodeKind::QualifiedIdentifier {
        if names.contains(node_range(starts, b, node)) || !receiver_readable(ctx, b) || node_text(node, b) is None {
            Seq::empty()
        } else {
            seq![(node, ctx)]
        }
    } else {
        sites_among(node, node.children@.len() as int, b, starts, names, ctx.in_type)
    }
}

/// The occurrences under the first `k` named children of `p`.
pub open spec fn sites_among(
    p: SyntaxNode,
    k: int,
    b: Seq<u8>,
    starts: Seq<usize>,
    names: Seq<TextRange>,
    p_in_type: bool,
) -> Seq<(SyntaxNode, OccurrenceContext)>
    decreases p, 0int, k,
{
    if k <= 0 || k > p.children@.len() {
        Seq::empty()
    } else if p.children@[k - 1].named {
        sites_among(p, k - 1, b, starts, names, p_in_type) + occurrence_sites(
            p.children@[k - 1],
            b,
            starts,
            names,
            child_context(p, k - 1, p_in_type),
        )
    } else {
        sites_among(p, k - 1, b, starts, names, p_in_type)
    }
}

/// `o` is the occurrence of an identifier node with its context.
pub open spec fn occurrence_of(
    node: SyntaxNode,
    ctx: OccurrenceContext,
    b: Seq<u8>,
    starts: Seq<usize>,
    o: SemanticOccurrence,
) -> bool {
    &&& Some(string_bytes(o.name)) == node_text(node, b)
    &&& o.selection_range == node_range(starts, b, node)
    &&& o.byte_offset == node.start
    &&& o.kind == ctx.kind
    &&& o.is_named_argument_label == (ctx.kind == SemanticOccurrenceKind::NamedArgument)
    &&& if ctx.member {
        ctx.object matches Some(obj) && (o.receiver matches Some(e) && expression_of(obj, b, starts, e))
    } else {
        o.receiver is None
    }
}

/// `out` holds one occurrence for each site, in order.
pub open spec fn occurrences_match(
    out: Seq<SemanticOccurrence>,
    s: Seq<(SyntaxNode, OccurrenceContext)>,
    b: Seq<u8>,
    starts: Seq<usize>,
) -> bool {
    out.len() == s.len() && forall|i: int| 0 <= i < s.len() ==> #[trigger] occurrence_of(s[i].0, s[i].1, b, starts, out[i])
}

/// The selection ranges of declarations.
pub open spec fn name_ranges(ds: Seq<Declaration>) -> Seq<TextRange> {
    ds.map_values(|d: Declaration| d.selection_range)
}

fn names_range(ds: &Vec<Declaration>, r: TextRange) -> (found: bool)
    ensures
        found == name_ranges(ds@).contains(r),
{
    let mut i: usize = 0;
    while i < ds.len()
        invariant
            0 <= i <= ds@.len(),
            forall|j: int| 0 <= j < i ==> #[trigger] name_ranges(ds@)[j] != r,
        decreases ds@.len() - i,
    {
        if ds[i].selection_range == r {
            assert(name_ranges(ds@)[i as int] == r);
            return true;
        }
        i = i + 1;
    }
    false
}

proof fn lemma_append_match(
    prev: Seq<SemanticOccurrence>,
    added: Seq<SemanticOccurrence>,
    s1: Seq<(SyntaxNode, OccurrenceContext)>,
    s2: Seq<(SyntaxNode, OccurrenceContext)>,
    b: Seq<u8>,
    starts: Seq<usize>,
)
    requires
        occurrences_match(prev, s1, b, starts),
        occurrences_match(added, s2, b, starts),
    ensures
        occurrences_match(prev + added, s1 + s2, b, starts),
{
    assert forall|j: int| 0 <= j < (s1 + s2).len() implies #[trigger] occurrence_of(
        (s1 + s2)[j].0,
        (s1 + s2)[j].1,
        b,
        starts,
        (prev + added)[j],
    ) by {
        if j < s1.len() {
            assert((s1 + s2)[j] == s1[j] && (prev + added)[j] == prev[j]);
        } else {
            assert((s1 + s2)[j] == s2[j - s1.len()] && (prev + added)[j] == added[j - s1.len()]);
        }
    }
}

/// Appends the occurrences of a subtree (`collect_occurrences`); `kind`,
/// `in_type`, `member` and `object` are what the node's parent says of it.
pub fn collect_occurrences(
    node: &SyntaxNode,
    source: &str,
    index: &LineIndex,
    declarations: &Vec<Declaration>,
    kind: SemanticOccurrenceKind,
    in_type: bool,
    member: bool,
    object: Option<&SyntaxNode>,
    output: &mut Vec<SemanticOccurrence>,
)
    requires
        node.fits(source.spec_bytes().len() as int),
        object matches Some(o) ==> o.fits(source.spec_bytes().len() as int),
        index@ == line_starts_of(source.spec_bytes()),
    ensures
        final(output)@.len() >= old(output)@.len(),
        final(output)@.subrange(0, old(output)@.len() as int) == old(output)@,
        occurrences_match(
            final(output)@.subrange(old(output)@.len() as int, final(output)@.len() as int),
            occurrence_sites(
                *node,
                source.spec_bytes(),
                index@,
                name_ranges(declarations@),
                OccurrenceContext {
                    kind,
                    in_type,
                    member,
                    object: match object {
                        Some(o) => Some(*o),
                        None => None,
                    },
                },
            ),
            source.spec_bytes(),
            index@,
        ),
    decreases node,
{
    let ghost b = source.spec_bytes();
    let ghost start = output@;
    let ghost names = name_ranges(declarations@);
    let ghost ctx = OccurrenceContext {
        kind,
        in_type,
        member,
        object: match object {
            Some(o) => Some(*o),
            None => None,
        },
    };
    if node.kind == NodeKind::Identifier || node.kind == NodeKind::QualifiedIdentifier {
        let selection_range = range_of(node, source, index);
        if names_range(declarations, selection_range) {
            assert(output@.subrange(0, start.len() as int) =~= start);
            assert(output@.subrange(start.len() as int, output@.len() as int) =~= Seq::<SemanticOccurrence>::empty());
            return;
        }
        let receiver = if member {
            match object {
                Some(o) => match from_node(o, source, index) {
                    Some(e) => Some(e),
                    None => {
                        assert(output@.subrange(0, start.len() as int) =~= start);
                        assert(output@.subrange(start.len() as int, output@.len() as int)
                            =~= Seq::<SemanticOccurrence>::empty());
                        return;
                    },
                },
                None => {
                    assert(output@.subrange(0, start.len() as int) =~= start);
                    assert(output@.subrange(start.len() as int, output@.len() as int)
                        =~= Seq::<SemanticOccurrence>::empty());
                    return;
                },
            }
        } else {
            None
        };
        match text(node, source) {
            Some(name) => {
                output.push(
                    SemanticOccurrence {
                        name,
                        receiver,
                        selection_range,
                        byte_offset: node.start,
                        is_named_argument_label: kind == SemanticOccurrenceKind::NamedArgument,
                        kind,
                    },
                );
                assert(output@.subrange(0, start.len() as int) =~= start);
                let ghost added = output@.subrange(start.len() as int, output@.len() as int);
                assert(added =~= seq![output@[start.len() as int]]);
                assert(occurrence_of(*node, ctx, b, index@, added[0]));
            },
            None => {
                assert(output@.subrange(0, start.len() as int) =~= start);
                assert(output@.subrange(start.len() as int, output@.len() as int) =~= Seq::<SemanticOccurrence>::empty());
            },
        }
        return;
    }
    let name_pos = field_position(node, "name");
    let member_pos = field_position(node, "member");
    let module_pos = field_position(node, "module");
    let parent_pos = field_position(node, "parent");
    let type_pos = field_position(node, "type");
    let object_pos = field_position(node, "object");
    let mut i: usize = 0;
    assert(output@.subrange(start.len() as int, output@.len() as int) =~= Seq::<SemanticOccurrence>::empty());
    while i < node.children.len()
        invariant
            node.fits(b.len() as int),
            b == source.spec_bytes(),
            index@ == line_starts_of(b),
            names == name_ranges(declarations@),
            name_pos == field_at(*node, "name"),
            member_pos == field_at(*node, "member"),
            module_pos == field_at(*node, "module"),
            parent_pos == field_at(*node, "parent"),
            type_pos == field_at(*node, "type"),
            object_pos == field_at(*node, "object"),
            object_pos <= node.children@.len(),
            0 <= i <= node.children@.len(),
            output@.len() >= start.len(),
            output@.subrange(0, start.len() as int) == start,
            occurrences_match(
                output@.subrange(start.len() as int, output@.len() as int),
                sites_among(*node, i as int, b, index@, names, in_type),
                b,
                index@,
            ),
        decreases node.children@.len() - i,
    {
        let ghost before = output@;
        if node.children[i].named {
            let p_kind = node.kind;
            let child_type = p_kind == NodeKind::Type || ((p_kind == NodeKind::ScriptDeclaration || p_kind
                == NodeKind::ImportDeclaration || p_kind == NodeKind::NewExpression) && (parent_pos == i || module_pos
                == i || type_pos == i)) || (p_kind == NodeKind::QualifiedIdentifier && in_type);
            let child_member = member_pos == i;
            let child_kind = if p_kind == NodeKind::Argument && name_pos == i {
                SemanticOccurrenceKind::NamedArgument
            } else if child_member {
                SemanticOccurrenceKind::Member
            } else if p_kind == NodeKind::ImportDeclaration && module_pos == i {
                SemanticOccurrenceKind::Import
            } else if child_type {
                SemanticOccurrenceKind::Type
            } else {
                SemanticOccurrenceKind::Reference
            };
            let child_object = if child_member && object_pos < node.children.len() {
                assert(node.children@[object_pos as int].fits(b.len() as int));
                Some(&node.children[object_pos])
            } else {
                None
            };
            assert(node.children@[i as int].fits(b.len() as int));
            collect_occurrences(
                &node.children[i],
                source,
                index,
                declarations,
                child_kind,
                child_type,
                child_member,
                child_object,
                output,
            );
            proof {
                let c = child_context(*node, i as int, in_type);
                assert(c == OccurrenceContext {
                    kind: child_kind,
                    in_type: child_type,
                    member: child_member,
                    object: match child_object {
                        Some(o) => Some(*o),
                        None => None,
                    },
                });
                let prev = before.subrange(start.len() as int, before.len() as int);
                let added = output@.subrange(before.len() as int, output@.len() as int);
                assert(output@.subrange(0, before.len() as int) == before);
                assert(output@.subrange(start.len() as int, output@.len() as int) =~= prev + added);
                assert(output@.subrange(0, start.len() as int) =~= before.subrange(0, start.len() as int));
                lemma_append_match(
                    prev,
                    added,
                    sites_among(*node, i as int, b, index@, names, in_type),
                    occurrence_sites(node.children@[i as int], b, index@, names, c),
                    b,
                    index@,
                );
            }
        }
        i = i + 1;
    }
}

} // verus!
