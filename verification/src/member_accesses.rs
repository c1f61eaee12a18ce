//! The member accesses of a syntax tree whose receivers completion reads:
//! member expressions, and the dots that the parser could only recover as
//! errors after an expression.
use vstd::prelude::*;
use vstd::string::StringSliceAdditionalSpecFns;
use crate::expression::{expression_of, from_node, has_expression};
use crate::line_index::{LineIndex, line_starts_of};
use crate::semantic::SemanticMemberAccess;
use crate::structure::ByteRange;
use crate::syntax::{NodeKind, SyntaxNode, field_at, field_child, field_position, node_text, text};

verus! {

/// The length of the UTF-8 encoding of a Unicode `White_Space` character
/// that starts at `i`, or 0 when none does.
pub open spec fn white_space_width(b: Seq<u8>, i: int) -> int {
    if i < 0 || i >= b.len() {
        0
    } else if (9 <= b[i] <= 13) || b[i] == 32 {
        1
    } else if i + 1 < b.len() && b[i] == 0xC2 && (b[i + 1] == 0x85 || b[i + 1] == 0xA0) {
        2
    } else if i + 2 < b.len() && b[i] == 0xE1 && b[i + 1] == 0x9A && b[i + 2] == 0x80 {
        3
    } else if i + 2 < b.len() && b[i] == 0xE2 && b[i + 1] == 0x80 && ((0x80 <= b[i + 2] <= 0x8A) || b[i + 2]
        == 0xA8 || b[i + 2] == 0xA9 || b[i + 2] == 0xAF) {
        3
    } else if i + 2 < b.len() && b[i] == 0xE2 && b[i + 1] == 0x81 && b[i + 2] == 0x9F {
        3
    } else if i + 2 < b.len() && b[i] == 0xE3 && b[i + 1] == 0x80 && b[i + 2] == 0x80 {
        3
    } else {
        0
    }
}

/// The end of the run of white space that starts at `i`.
pub open spec fn skip_white_space(b: Seq<u8>, i: int) -> int
    decreases b.len() - i,
{
    if i < 0 || i >= b.len() || white_space_width(b, i) == 0 {
        i
    } else {
        skip_white_space(b, i + white_space_width(b, i))
    }
}

/// Text that is a single `.` once white space is trimmed from both ends.
pub open spec fn trims_to_dot(b: Seq<u8>) -> bool {
    let i = skip_white_space(b, 0);
    0 <= i < b.len() && b[i] == 46 && skip_white_space(b, i + 1) == b.len()
}

/// The first child from `i` on of a kind; the count when none is.
pub open spec fn kind_index(cs: Seq<SyntaxNode>, kind: NodeKind, i: int) -> int
    decreases cs.len() - i,
{
    if i < 0 || i >= cs.len() {
        cs.len() as int
    } else if cs[i].kind == kind {
        i
    } else {
        kind_index(cs, kind, i + 1)
    }
}

/// The completion range of a member expression: from the end of its first
/// `.` to the end of its member, never before the dot.
pub open spec fn access_range(node: SyntaxNode) -> Option<ByteRange> {
    let cs = node.children@;
    let d = kind_index(cs, NodeKind::Dot, 0);
    if d < cs.len() {
        let dot_end = cs[d].end;
        let member_end = match field_child(node, "member") {
            Some(m) => m.end,
            None => dot_end,
        };
        Some(ByteRange { start: dot_end, end: if member_end >= dot_end { member_end } else { dot_end } })
    } else {
        None
    }
}

/// The receiver node and completion range of a member expression whose
/// object holds an expression.
pub open spec fn own_access(node: SyntaxNode, b: Seq<u8>) -> Option<(SyntaxNode, ByteRange)> {
    if node.kind == NodeKind::MemberExpression && field_at(node, "object") < node.children@.len() {
        let object = node.children@[field_at(node, "object")];
        match access_range(node) {
            Some(r) => if has_expression(object, b) {
                Some((object, r))
            } else {
                None
            },
            None => None,
        }
    } else {
        None
    }
}

/// The last of the first `k` children that is named and holds an expression.
pub open spec fn last_named_expression(cs: Seq<SyntaxNode>, b: Seq<u8>, k: int) -> Option<SyntaxNode>
    decreases k,
{
    if k <= 0 || k > cs.len() {
        None
    } else if cs[k - 1].named && has_expression(cs[k - 1], b) {
        Some(cs[k - 1])
    } else {
        last_named_expression(cs, b, k - 1)
    }
}

/// The node whose expression stands for a candidate receiver: the node
/// itself, else its last named child that holds an expression.
pub open spec fn receiver_node(n: SyntaxNode, b: Seq<u8>) -> Option<SyntaxNode> {
    if has_expression(n, b) {
        Some(n)
    } else {
        last_named_expression(n.children@, b, n.children@.len() as int)
    }
}

/// The receiver node of the nearest of the first `k` children that has one.
pub open spec fn receiver_before(cs: Seq<SyntaxNode>, b: Seq<u8>, k: int) -> Option<SyntaxNode>
    decreases k,
{
    if k <= 0 || k > cs.len() {
        None
    } else {
        match receiver_node(cs[k - 1], b) {
            Some(n) => Some(n),
            None => receiver_before(cs, b, k - 1),
        }
    }
}

/// A child that is an error holding only a `.`.
pub open spec fn is_stray_dot(c: SyntaxNode, b: Seq<u8>) -> bool {
    c.kind == NodeKind::Error && (node_text(c, b) matches Some(t) && trims_to_dot(t))
}

/// The accesses recovered at stray dots among the first `k` children: the
/// receiver is that of the nearest child before the dot that has one, and
/// completion starts and ends after the dot.
pub open spec fn recovered_accesses(node: SyntaxNode, b: Seq<u8>, k: int) -> Seq<(SyntaxNode, ByteRange)>
    decreases k,
{
    let cs = node.children@;
    if k <= 0 || k > cs.len() {
        Seq::empty()
    } else {
        recovered_accesses(node, b, k - 1) + if is_stray_dot(cs[k - 1], b) {
            match receiver_before(cs, b, k - 1) {
                Some(r) => seq![(r, ByteRange { start: cs[k - 1].end, end: cs[k - 1].end })],
                None => Seq::empty(),
            }
        } else {
            Seq::empty()
        }
    }
}

/// The accesses of a subtree, in order: the node's own, those recovered
/// among its children, then those of its named children.
pub open spec fn access_sites(node: SyntaxNode, b: Seq<u8>) -> Seq<(SyntaxNode, ByteRange)>
    decreases node, 1int,
{
    (match own_access(node, b) {
        Some(a) => seq![a],
        None => Seq::empty(),
    }) + recovered_accesses(node, b, node.children@.len() as int) + child_access_sites(
        node,
        b,
        node.children@.len() as int,
    )
}

/// The accesses of the first `k` named children.
pub open spec fn child_access_sites(node: SyntaxNode, b: Seq<u8>, k: int) -> Seq<(SyntaxNode, ByteRange)>
    decreases node, 0int, k,
{
    if k <= 0 || k > node.children@.len() {
        Seq::empty()
    } else if node.children@[k - 1].named {
        child_access_sites(node, b, k - 1) + access_sites(node.children@[k - 1], b)
    } else {
        child_access_sites(node, b, k - 1)
    }
}

/// `out` holds one access for each site, in order: the expression of the
/// site's receiver node and its completion range.
pub open spec fn accesses_match(
    out: Seq<SemanticMemberAccess>,
    s: Seq<(SyntaxNode, ByteRange)>,
    b: Seq<u8>,
    starts: Seq<usize>,
) -> bool {
    out.len() == s.len() && forall|i: int|
        0 <= i < s.len() ==> expression_of(s[i].0, b, starts, #[trigger] out[i].receiver) && out[i].completion_range
            == s[i].1
}

fn white_space_width_at(b: &[u8], i: usize) -> (r: usize)
    ensures
        r as int == white_space_width(b@, i as int),
{
    if i >= b.len() {
        0
    } else if (9 <= b[i] && b[i] <= 13) || b[i] == 32 {
        1
    } else if b.len() - i > 1 && b[i] == 0xC2 && (b[i + 1] == 0x85 || b[i + 1] == 0xA0) {
        2
    } else if b.len() - i > 2 && b[i] == 0xE1 && b[i + 1] == 0x9A && b[i + 2] == 0x80 {
        3
    } else if b.len() - i > 2 && b[i] == 0xE2 && b[i + 1] == 0x80 && ((0x80 <= b[i + 2] && b[i + 2] <= 0x8A)
        || b[i + 2] == 0xA8 || b[i + 2] == 0xA9 || b[i + 2] == 0xAF) {
        3
    } else if b.len() - i > 2 && b[i] == 0xE2 && b[i + 1] == 0x81 && b[i + 2] == 0x9F {
        3
    } else if b.len() - i > 2 && b[i] == 0xE3 && b[i + 1] == 0x80 && b[i + 2] == 0x80 {
        3
    } else {
        0
    }
}

fn skip_white_space_from(b: &[u8], i: usize) -> (r: usize)
    requires
        i <= b@.len(),
    ensures
        r as int == skip_white_space(b@, i as int),
        i <= r <= b@.len(),
{
    let mut j = i;
    while j < b.len() && white_space_width_at(b, j) > 0
        invariant
            i <= j <= b@.len(),
            skip_white_space(b@, j as int) == skip_white_space(b@, i as int),
        decreases b@.len() - j,
    {
        j = j + white_space_width_at(b, j);
    }
    j
}

/// Whether text is a single `.` once white space is trimmed (`trim() == "."`).
pub fn is_trimmed_dot(b: &[u8]) -> (r: bool)
    ensures
        r == trims_to_dot(b@),
{
    let i = skip_white_space_from(b, 0);
    i < b.len() && b[i] == 46 && skip_white_space_from(b, i + 1) == b.len()
}

proof fn lemma_append_accesses(
    prev: Seq<SemanticMemberAccess>,
    added: Seq<SemanticMemberAccess>,
    s1: Seq<(SyntaxNode, ByteRange)>,
    s2: Seq<(SyntaxNode, ByteRange)>,
    b: Seq<u8>,
    starts: Seq<usize>,
)
    requires
        accesses_match(prev, s1, b, starts),
        accesses_match(added, s2, b, starts),
    ensures
        accesses_match(prev + added, s1 + s2, b, starts),
{
    assert forall|j: int| 0 <= j < (s1 + s2).len() implies expression_of(
        (s1 + s2)[j].0,
        b,
        starts,
        #[trigger] (prev + added)[j].receiver,
    ) && (prev + added)[j].completion_range == (s1 + s2)[j].1 by {
        if j < s1.len() {
            assert((s1 + s2)[j] == s1[j] && (prev + added)[j] == prev[j]);
        } else {
            assert((s1 + s2)[j] == s2[j - s1.len()] && (prev + added)[j] == added[j - s1.len()]);
        }
    }
}

/// The expression of a candidate receiver.
fn receiver_expression(n: &SyntaxNode, source: &str, index: &LineIndex) -> (r: Option<crate::semantic::SemanticExpression>)
    requires
        n.fits(source.spec_bytes().len() as int),
        index@ == line_starts_of(source.spec_bytes()),
    ensures
        r.is_some() == receiver_node(*n, source.spec_bytes()).is_some(),
        r matches Some(e) ==> expression_of(receiver_node(*n, source.spec_bytes()).unwrap(), source.spec_bytes(), index@, e),
{
    let ghost b = source.spec_bytes();
    if let Some(e) = from_node(n, source, index) {
        return Some(e);
    }
    let cs = &n.children;
    let mut k = cs.len();
    while k > 0
        invariant
            n.fits(b.len() as int),
            b == source.spec_bytes(),
            index@ == line_starts_of(b),
            cs@ == n.children@,
            0 <= k <= cs@.len(),
            last_named_expression(cs@, b, cs@.len() as int) == last_named_expression(cs@, b, k as int),
            !has_expression(*n, b),
        decreases k,
    {
        if cs[k - 1].named {
            assert(cs@[k - 1].fits(b.len() as int));
            if let Some(e) = from_node(&cs[k - 1], source, index) {
                return Some(e);
            }
        }
        k = k - 1;
    }
    None
}

/// Appends the member accesses of a subtree (`collect_member_accesses`).
pub fn collect_member_accesses(
    node: &SyntaxNode,
    source: &str,
    index: &LineIndex,
    output: &mut Vec<SemanticMemberAccess>,
)
    requires
        node.fits(source.spec_bytes().len() as int),
        index@ == line_starts_of(source.spec_bytes()),
    ensures
        final(output)@.len() >= old(output)@.len(),
        final(output)@.subrange(0, old(output)@.len() as int) == old(output)@,
        accesses_match(
            final(output)@.subrange(old(output)@.len() as int, final(output)@.len() as int),
            access_sites(*node, source.spec_bytes()),
            source.spec_bytes(),
            index@,
        ),
    decreases node,
{
    let ghost b = source.spec_bytes();
    let ghost start = output@;
    let cs = &node.children;
    // The node's own access.
    let ghost own: Seq<(SyntaxNode, ByteRange)> = match own_access(*node, b) {
        Some(a) => seq![a],
        None => Seq::empty(),
    };
    if node.kind == NodeKind::MemberExpression {
        let o = field_position(node, "object");
        if o < cs.len() {
            let mut d: usize = 0;
            while d < cs.len() && cs[d].kind != NodeKind::Dot
                invariant
                    0 <= d <= cs@.len(),
                    cs@ == node.children@,
                    kind_index(cs@, NodeKind::Dot, d as int) == kind_index(cs@, NodeKind::Dot, 0),
                decreases cs@.len() - d,
            {
                d = d + 1;
            }
            if d < cs.len() {
                let dot_end = cs[d].end;
                let m = field_position(node, "member");
                let member_end = if m < cs.len() {
                    cs[m].end
                } else {
                    dot_end
                };
                assert(cs@[o as int].fits(b.len() as int));
                if let Some(e) = from_node(&cs[o], source, index) {
                    output.push(
                        SemanticMemberAccess {
                            receiver: e,
                            completion_range: ByteRange {
                                start: dot_end,
                                end: if member_end >= dot_end {
                                    member_end
                                } else {
                                    dot_end
                                },
                            },
                        },
                    );
                }
            }
        }
    }
    proof {
        assert(output@.subrange(0, start.len() as int) =~= start);
        let added = output@.subrange(start.len() as int, output@.len() as int);
        if own.len() == 1 {
            assert(added.len() == 1);
            assert(added[0] == output@[start.len() as int]);
        } else {
            assert(added =~= Seq::<SemanticMemberAccess>::empty());
        }
        assert(accesses_match(added, own, b, index@));
    }
    // Accesses recovered at stray dots among the children.
    let ghost after_own = output@;
    let mut k: usize = 0;
    assert(output@.subrange(after_own.len() as int, output@.len() as int) =~= Seq::<SemanticMemberAccess>::empty());
    while k < cs.len()
        invariant
            node.fits(b.len() as int),
            b == source.spec_bytes(),
            index@ == line_starts_of(b),
            cs@ == node.children@,
            0 <= k <= cs@.len(),
            output@.len() >= after_own.len(),
            output@.subrange(0, after_own.len() as int) == after_own,
            accesses_match(
                output@.subrange(after_own.len() as int, output@.len() as int),
                recovered_accesses(*node, b, k as int),
                b,
                index@,
            ),
        decreases cs@.len() - k,
    {
        let ghost before = output@;
        let c = &cs[k];
        assert(cs@[k as int].fits(b.len() as int));
        let stray = c.kind == NodeKind::Error && match text(c, source) {
            Some(t) => is_trimmed_dot(t.as_str().as_bytes()),
            None => false,
        };
        if stray {
            let mut j = k;
            let mut found: Option<crate::semantic::SemanticExpression> = None;
            while found.is_none() && j > 0
                invariant
                    node.fits(b.len() as int),
                    b == source.spec_bytes(),
                    index@ == line_starts_of(b),
                    cs@ == node.children@,
                    0 <= j <= k < cs@.len(),
                    found is None ==> receiver_before(cs@, b, k as int) == receiver_before(cs@, b, j as int),
                    found matches Some(e) ==> (receiver_before(cs@, b, k as int) matches Some(r) && expression_of(
                        r,
                        b,
                        index@,
                        e,
                    )),
                decreases j,
            {
                assert(cs@[j - 1].fits(b.len() as int));
                found = receiver_expression(&cs[j - 1], source, index);
                j = j - 1;
            }
            match found {
                Some(e) => {
                    output.push(SemanticMemberAccess { receiver: e, completion_range: ByteRange { start: c.end, end: c.end } });
                },
                None => {},
            }
        }
        proof {
            if stray {
                assert(is_stray_dot(cs@[k as int], b));
            } else {
                assert(!is_stray_dot(cs@[k as int], b));
            }
            let prev = before.subrange(after_own.len() as int, before.len() as int);
            let added = output@.subrange(before.len() as int, output@.len() as int);
            let more = recovered_accesses(*node, b, k + 1).subrange(
                recovered_accesses(*node, b, k as int).len() as int,
                recovered_accesses(*node, b, k + 1).len() as int,
            );
            assert(recovered_accesses(*node, b, k + 1) =~= recovered_accesses(*node, b, k as int) + more);
            if output@.len() > before.len() {
                assert(added =~= seq![output@[before.len() as int]]);
            } else {
                assert(added =~= Seq::<SemanticMemberAccess>::empty());
            }
            assert(accesses_match(added, more, b, index@));
            assert(output@.subrange(after_own.len() as int, output@.len() as int) =~= prev + added);
            assert(output@.subrange(0, after_own.len() as int) =~= before.subrange(0, after_own.len() as int));
            lemma_append_accesses(prev, added, recovered_accesses(*node, b, k as int), more, b, index@);
        }
        k = k + 1;
    }
    // The accesses of the named children.
    let ghost after_recovered = output@;
    let mut i: usize = 0;
    assert(output@.subrange(after_recovered.len() as int, output@.len() as int)
        =~= Seq::<SemanticMemberAccess>::empty());
    while i < cs.len()
        invariant
            node.fits(b.len() as int),
            b == source.spec_bytes(),
            index@ == line_starts_of(b),
            cs@ == node.children@,
            0 <= i <= cs@.len(),
            output@.len() >= after_recovered.len(),
            output@.subrange(0, after_recovered.len() as int) == after_recovered,
            accesses_match(
                output@.subrange(after_recovered.len() as int, output@.len() as int),
                child_access_sites(*node, b, i as int),
                b,
                index@,
            ),
        decreases cs@.len() - i,
    {
        let ghost before = output@;
        if cs[i].named {
            assert(cs@[i as int].fits(b.len() as int));
            collect_member_accesses(&cs[i], source, index, output);
            proof {
                let prev = before.subrange(after_recovered.len() as int, before.len() as int);
                let added = output@.subrange(before.len() as int, output@.len() as int);
                assert(output@.subrange(0, before.len() as int) == before);
                assert(output@.subrange(after_recovered.len() as int, output@.len() as int) =~= prev + added);
                assert(output@.subrange(0, after_recovered.len() as int) =~= before.subrange(
                    0,
                    after_recovered.len() as int,
                ));
                lemma_append_accesses(
                    prev,
                    added,
                    child_access_sites(*node, b, i as int),
                    access_sites(cs@[i as int], b),
                    b,
                    index@,
                );
            }
        }
        i = i + 1;
    }
    proof {
        let p1 = after_own.subrange(start.len() as int, after_own.len() as int);
        let p2 = after_recovered.subrange(after_own.len() as int, after_recovered.len() as int);
        let p3 = output@.subrange(after_recovered.len() as int, output@.len() as int);
        assert(output@.subrange(0, after_recovered.len() as int) == after_recovered);
        assert(after_recovered.subrange(0, after_own.len() as int) == after_own);
        assert(output@.subrange(start.len() as int, output@.len() as int) =~= p1 + p2 + p3);
        assert(output@.subrange(0, start.len() as int) =~= start);
        lemma_append_accesses(p1, p2, own, recovered_accesses(*node, b, cs@.len() as int), b, index@);
        lemma_append_accesses(
            p1 + p2,
            p3,
            own + recovered_accesses(*node, b, cs@.len() as int),
            child_access_sites(*node, b, cs@.len() as int),
            b,
            index@,
        );
    }
}

} // verus!
