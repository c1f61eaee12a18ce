//! The calls of a syntax tree with their argument lists: those the parser
//! recognised, and those it recovered inside syntax errors, ordered by
//! place and each place once.
use vstd::prelude::*;
use vstd::string::StringSliceAdditionalSpecFns;
use crate::line_index::{LineIndex, TextRange, line_starts_of};
use crate::names::identifier_before;
use crate::semantic::{Declaration, SemanticCallArgument, SemanticCallSite, opt_bytes};
use crate::structure::ByteRange;
use crate::syntax::{NodeKind, SyntaxNode, field_at, field_child, field_position, node_range, node_text, range_of, span_range, text};
use crate::text::string_bytes;

verus! {

/// The content of a call argument.
pub struct ArgumentView {
    pub name: Option<Seq<u8>>,
    pub range: TextRange,
    pub name_range: Option<TextRange>,
    pub byte_range: ByteRange,
}

/// The content of a call site.
pub struct CallSiteView {
    pub callee_range: TextRange,
    pub argument_range: ByteRange,
    pub separators: Seq<usize>,
    pub arguments: Seq<ArgumentView>,
    pub complete: bool,
}

impl View for SemanticCallArgument {
    type V = ArgumentView;

    open spec fn view(&self) -> ArgumentView {
        ArgumentView {
            name: opt_bytes(self.name),
            range: self.range,
            name_range: self.name_range,
            byte_range: self.byte_range,
        }
    }
}

impl View for SemanticCallSite {
    type V = CallSiteView;

    open spec fn view(&self) -> CallSiteView {
        CallSiteView {
            callee_range: self.callee_range,
            argument_range: self.argument_range,
            separators: self.separators@,
            arguments: self.arguments@.map_values(|a: SemanticCallArgument| a@),
            complete: self.complete,
        }
    }
}

pub open spec fn call_views(s: Seq<SemanticCallSite>) -> Seq<CallSiteView> {
    s.map_values(|c: SemanticCallSite| c@)
}

/// The first child from `i` on of a kind that is not missing; the count when none is.
pub open spec fn first_present(cs: Seq<SyntaxNode>, kind: NodeKind, i: int) -> int
    decreases cs.len() - i,
{
    if i < 0 || i >= cs.len() {
        cs.len() as int
    } else if cs[i].kind == kind && !cs[i].missing {
        i
    } else {
        first_present(cs, kind, i + 1)
    }
}

/// The commas among the first `k` children that lie in the argument list.
pub open spec fn separators_of(cs: Seq<SyntaxNode>, k: int, start: int, end: int) -> Seq<usize>
    decreases k,
{
    if k <= 0 || k > cs.len() {
        Seq::empty()
    } else if cs[k - 1].kind == NodeKind::Comma && start <= cs[k - 1].start <= end {
        separators_of(cs, k - 1, start, end).push(cs[k - 1].start)
    } else {
        separators_of(cs, k - 1, start, end)
    }
}

/// An argument node as a call argument.
pub open spec fn argument_view(a: SyntaxNode, b: Seq<u8>, starts: Seq<usize>) -> ArgumentView {
    let name = field_child(a, "name");
    ArgumentView {
        name: match name {
            Some(n) => node_text(n, b),
            None => None,
        },
        range: node_range(starts, b, a),
        name_range: match name {
            Some(n) => Some(node_range(starts, b, n)),
            None => None,
        },
        byte_range: ByteRange { start: a.start, end: a.end },
    }
}

/// The arguments among the first `k` children that lie in the argument list.
pub open spec fn arguments_of(cs: Seq<SyntaxNode>, k: int, start: int, end: int, b: Seq<u8>, starts: Seq<usize>) -> Seq<
    ArgumentView,
>
    decreases k,
{
    if k <= 0 || k > cs.len() {
        Seq::empty()
    } else if cs[k - 1].kind == NodeKind::Argument && start <= cs[k - 1].start && cs[k - 1].end <= end {
        arguments_of(cs, k - 1, start, end, b, starts).push(argument_view(cs[k - 1], b, starts))
    } else {
        arguments_of(cs, k - 1, start, end, b, starts)
    }
}

/// The call whose callee spans `callee` and whose argument list is read
/// from `cs`: it opens after the first `(`, and ends at the first `)`, else
/// at `fallback_end`, never before it opens.
pub open spec fn call_from_children(
    callee: ByteRange,
    cs: Seq<SyntaxNode>,
    fallback_end: usize,
    b: Seq<u8>,
    starts: Seq<usize>,
) -> Option<CallSiteView> {
    let open = first_present(cs, NodeKind::OpenParen, 0);
    let close = first_present(cs, NodeKind::CloseParen, 0);
    if open >= cs.len() {
        None
    } else {
        let start = cs[open].end;
        let raw_end = if close < cs.len() {
            cs[close].start
        } else {
            fallback_end
        };
        let end = if raw_end >= start {
            raw_end
        } else {
            start
        };
        Some(
            CallSiteView {
                callee_range: span_range(starts, b, callee.start as int, callee.end as int),
                argument_range: ByteRange { start, end },
                separators: separators_of(cs, cs.len() as int, start as int, end as int),
                arguments: arguments_of(cs, cs.len() as int, start as int, end as int, b, starts),
                complete: close < cs.len(),
            },
        )
    }
}

/// The call of a call expression: its callee is the member of a member
/// expression, else the function.
pub open spec fn call_of(node: SyntaxNode, b: Seq<u8>, starts: Seq<usize>) -> Option<CallSiteView> {
    match field_child(node, "function") {
        None => None,
        Some(function) => {
            let callee = if function.kind == NodeKind::MemberExpression {
                field_child(function, "member")
            } else {
                Some(function)
            };
            match (callee, field_child(node, "arguments")) {
                (Some(c), Some(a)) => call_from_children(
                    ByteRange { start: c.start, end: c.end },
                    a.children@,
                    a.end,
                    b,
                    starts,
                ),
                _ => None,
            }
        },
    }
}

/// The calls recovered at the `(` among the first `k` children of an error
/// node: the identifier before the `(` is the callee unless it names a
/// declaration.
pub open spec fn recovered_upto(
    node: SyntaxNode,
    k: int,
    b: Seq<u8>,
    starts: Seq<usize>,
    names: Seq<TextRange>,
) -> Seq<CallSiteView>
    decreases k,
{
    let cs = node.children@;
    if k <= 0 || k > cs.len() {
        Seq::empty()
    } else {
        let rest = recovered_upto(node, k - 1, b, starts, names);
        let open = cs[k - 1];
        if open.kind == NodeKind::OpenParen && !open.missing {
            match identifier_before(b, open.start as int) {
                Some((s, e)) => if names.contains(span_range(starts, b, s, e)) {
                    rest
                } else {
                    match call_from_children(
                        ByteRange { start: s as usize, end: e as usize },
                        cs.subrange(k - 1, cs.len() as int),
                        node.end,
                        b,
                        starts,
                    ) {
                        Some(c) => rest.push(c),
                        None => rest,
                    }
                },
                None => rest,
            }
        } else {
            rest
        }
    }
}

/// The calls of a subtree in the order of the walk.
pub open spec fn calls_of(node: SyntaxNode, b: Seq<u8>, starts: Seq<usize>, names: Seq<TextRange>) -> Seq<CallSiteView>
    decreases node, 1int,
{
    let own = if node.kind == NodeKind::CallExpression {
        match call_of(node, b, starts) {
            Some(c) => seq![c],
            None => Seq::empty(),
        }
    } else if node.kind == NodeKind::Error {
        recovered_upto(node, node.children@.len() as int, b, starts, names)
    } else {
        Seq::empty()
    };
    own + calls_among(node.children@, node.children@.len() as int, b, starts, names)
}

/// The calls under the first `k` named children.
pub open spec fn calls_among(cs: Seq<SyntaxNode>, k: int, b: Seq<u8>, starts: Seq<usize>, names: Seq<TextRange>) -> Seq<
    CallSiteView,
>
    decreases cs, k,
{
    if k <= 0 || k > cs.len() {
        Seq::empty()
    } else if cs[k - 1].named {
        calls_among(cs, k - 1, b, starts, names) + calls_of(cs[k - 1], b, starts, names)
    } else {
        calls_among(cs, k - 1, b, starts, names)
    }
}

fn find_present(cs: &Vec<SyntaxNode>, from: usize, kind: NodeKind) -> (r: usize)
    requires
        from <= cs@.len(),
    ensures
        r - from == first_present(cs@.subrange(from as int, cs@.len() as int), kind, 0),
        from <= r <= cs@.len(),
{
    let ghost sub = cs@.subrange(from as int, cs@.len() as int);
    let mut i: usize = from;
    while i < cs.len()
        invariant
            from <= i <= cs@.len(),
            sub == cs@.subrange(from as int, cs@.len() as int),
            first_present(sub, kind, i - from) == first_present(sub, kind, 0),
        decreases cs@.len() - i,
    {
        assert(sub[i - from] == cs@[i as int]);
        if cs[i].kind == kind && !cs[i].missing {
            return i;
        }
        i = i + 1;
    }
    i
}

fn argument_of(a: &SyntaxNode, source: &str, index: &LineIndex) -> (r: SemanticCallArgument)
    requires
        a.fits(source.spec_bytes().len() as int),
        index@ == line_starts_of(source.spec_bytes()),
    ensures
        r@ == argument_view(*a, source.spec_bytes(), index@),
{
    let k = field_position(a, "name");
    let (name, name_range) = if k < a.children.len() {
        assert(a.children@[k as int].fits(source.spec_bytes().len() as int));
        (text(&a.children[k], source), Some(range_of(&a.children[k], source, index)))
    } else {
        (None, None)
    };
    SemanticCallArgument {
        name,
        range: range_of(a, source, index),
        name_range,
        byte_range: ByteRange { start: a.start, end: a.end },
    }
}

/// The call read from the children from `from` on (`call_site_from_children`).
fn call_site_from_children(
    callee: ByteRange,
    cs: &Vec<SyntaxNode>,
    from: usize,
    fallback_end: usize,
    source: &str,
    index: &LineIndex,
) -> (r: Option<SemanticCallSite>)
    requires
        from <= cs@.len(),
        forall|i: int| 0 <= i < cs@.len() ==> (#[trigger] cs@[i]).fits(source.spec_bytes().len() as int),
        index@ == line_starts_of(source.spec_bytes()),
    ensures
        match call_from_children(
            callee,
            cs@.subrange(from as int, cs@.len() as int),
            fallback_end,
            source.spec_bytes(),
            index@,
        ) {
            Some(v) => r matches Some(c) && c@ == v,
            None => r is None,
        },
{
    let ghost b = source.spec_bytes();
    let ghost sub = cs@.subrange(from as int, cs@.len() as int);
    let open = find_present(cs, from, NodeKind::OpenParen);
    if open >= cs.len() {
        return None;
    }
    let close = find_present(cs, from, NodeKind::CloseParen);
    let start = cs[open].end;
    let raw_end = if close < cs.len() {
        cs[close].start
    } else {
        fallback_end
    };
    let end = if raw_end >= start {
        raw_end
    } else {
        start
    };
    let mut separators: Vec<usize> = Vec::new();
    let mut arguments: Vec<SemanticCallArgument> = Vec::new();
    let mut j: usize = from;
    while j < cs.len()
        invariant
            from <= j <= cs@.len(),
            sub == cs@.subrange(from as int, cs@.len() as int),
            b == source.spec_bytes(),
            index@ == line_starts_of(b),
            forall|i: int| 0 <= i < cs@.len() ==> (#[trigger] cs@[i]).fits(b.len() as int),
            separators@ == separators_of(sub, j - from, start as int, end as int),
            arguments@.map_values(|a: SemanticCallArgument| a@) == arguments_of(sub, j - from, start as int, end as int, b, index@),
        decreases cs@.len() - j,
    {
        let c = &cs[j];
        assert(sub[j - from] == cs@[j as int]);
        if c.kind == NodeKind::Comma && start <= c.start && c.start <= end {
            separators.push(c.start);
        }
        if c.kind == NodeKind::Argument && start <= c.start && c.end <= end {
            assert(cs@[j as int].fits(b.len() as int));
            let a = argument_of(c, source, index);
            let ghost before = arguments@.map_values(|x: SemanticCallArgument| x@);
            arguments.push(a);
            assert(arguments@.map_values(|x: SemanticCallArgument| x@) =~= before.push(a@));
        }
        j = j + 1;
    }
    let callee_range = index.range(source, callee);
    Some(
        SemanticCallSite {
            callee_range,
            argument_range: ByteRange { start, end },
            separators,
            arguments,
            complete: close < cs.len(),
        },
    )
}

/// The call of a call expression (`call_site`).
fn call_site(node: &SyntaxNode, source: &str, index: &LineIndex) -> (r: Option<SemanticCallSite>)
    requires
        node.fits(source.spec_bytes().len() as int),
        index@ == line_starts_of(source.spec_bytes()),
    ensures
        match call_of(*node, source.spec_bytes(), index@) {
            Some(v) => r matches Some(c) && c@ == v,
            None => r is None,
        },
{
    let ghost b = source.spec_bytes();
    let f = field_position(node, "function");
    if f >= node.children.len() {
        return None;
    }
    let function = &node.children[f];
    assert(node.children@[f as int].fits(b.len() as int));
    let callee = if function.kind == NodeKind::MemberExpression {
        let m = field_position(function, "member");
        if m >= function.children.len() {
            return None;
        }
        ByteRange { start: function.children[m].start, end: function.children[m].end }
    } else {
        ByteRange { start: function.start, end: function.end }
    };
    let a = field_position(node, "arguments");
    if a >= node.children.len() {
        return None;
    }
    let arguments = &node.children[a];
    assert(node.children@[a as int].fits(b.len() as int));
    assert(arguments.children@.subrange(0, arguments.children@.len() as int) =~= arguments.children@);
    call_site_from_children(callee, &arguments.children, 0, arguments.end, source, index)
}

fn names_range(ds: &Vec<Declaration>, r: TextRange) -> (found: bool)
    ensures
        found == crate::occurrences::name_ranges(ds@).contains(r),
{
    let mut i: usize = 0;
    while i < ds.len()
        invariant
            0 <= i <= ds@.len(),
            forall|j: int| 0 <= j < i ==> #[trigger] crate::occurrences::name_ranges(ds@)[j] != r,
        decreases ds@.len() - i,
    {
        if ds[i].selection_range == r {
            assert(crate::occurrences::name_ranges(ds@)[i as int] == r);
            return true;
        }
        i = i + 1;
    }
    false
}

/// The calls recovered inside an error node (`recovered_call_sites`).
fn recovered_call_sites(
    node: &SyntaxNode,
    source: &str,
    index: &LineIndex,
    declarations: &Vec<Declaration>,
    out: &mut Vec<SemanticCallSite>,
)
    requires
        node.fits(source.spec_bytes().len() as int),
        index@ == line_starts_of(source.spec_bytes()),
    ensures
        call_views(final(out)@) == call_views(old(out)@) + recovered_upto(
            *node,
            node.children@.len() as int,
            source.spec_bytes(),
            index@,
            crate::occurrences::name_ranges(declarations@),
        ),
{
    let ghost b = source.spec_bytes();
    let ghost names = crate::occurrences::name_ranges(declarations@);
    let ghost start = call_views(out@);
    let cs = &node.children;
    let total = source.as_bytes().len();
    let mut k: usize = 0;
    assert(call_views(out@) =~= start + recovered_upto(*node, 0, b, index@, names));
    while k < cs.len()
        invariant
            total == b.len(),
            node.fits(b.len() as int),
            b == source.spec_bytes(),
            index@ == line_starts_of(b),
            names == crate::occurrences::name_ranges(declarations@),
            *cs == node.children,
            0 <= k <= cs@.len(),
            call_views(out@) == start + recovered_upto(*node, k as int, b, index@, names),
        decreases cs@.len() - k,
    {
        let open = &cs[k];
        let ghost rest = recovered_upto(*node, k as int, b, index@, names);
        assert(node.children@[k as int] == *open);
        if open.kind == NodeKind::OpenParen && !open.missing {
            match crate::names::identifier_range_before(source, open.start) {
                Some(callee) => {
                    let callee_range = index.range(source, callee);
                    assert(identifier_before(b, open.start as int) == Some((callee.start as int, callee.end as int)));
                    if !names_range(declarations, callee_range) {
                        match call_site_from_children(callee, cs, k, node.end, source, index) {
                            Some(c) => {
                                let ghost before = call_views(out@);
                                out.push(c);
                                assert(call_views(out@) =~= before.push(c@));
                                assert(recovered_upto(*node, k + 1, b, index@, names) == rest.push(c@));
                            },
                            None => {
                                assert(recovered_upto(*node, k + 1, b, index@, names) == rest);
                            },
                        }
                    } else {
                        assert(recovered_upto(*node, k + 1, b, index@, names) == rest);
                    }
                },
                None => {
                    assert(recovered_upto(*node, k + 1, b, index@, names) == rest);
                },
            }
        } else {
            assert(recovered_upto(*node, k + 1, b, index@, names) == rest);
        }
        assert(call_views(out@) =~= start + recovered_upto(*node, k + 1, b, index@, names));
        k = k + 1;
    }
}

/// Appends the calls of a subtree (`collect_call_sites`).
pub fn collect_call_sites(
    node: &SyntaxNode,
    source: &str,
    index: &LineIndex,
    declarations: &Vec<Declaration>,
    out: &mut Vec<SemanticCallSite>,
)
    requires
        node.fits(source.spec_bytes().len() as int),
        index@ == line_starts_of(source.spec_bytes()),
    ensures
        call_views(final(out)@) == call_views(old(out)@) + calls_of(
            *node,
            source.spec_bytes(),
            index@,
            crate::occurrences::name_ranges(declarations@),
        ),
    decreases node,
{
    let ghost b = source.spec_bytes();
    let ghost names = crate::occurrences::name_ranges(declarations@);
    let ghost start = call_views(out@);
    if node.kind == NodeKind::CallExpression {
        match call_site(node, source, index) {
            Some(c) => {
                out.push(c);
                assert(call_views(out@) =~= start.push(c@));
            },
            None => {},
        }
    } else if node.kind == NodeKind::Error {
        recovered_call_sites(node, source, index, declarations, out);
    }
    let ghost mid = call_views(out@);
    let mut i: usize = 0;
    assert(mid =~= mid + calls_among(node.children@, 0, b, index@, names));
    while i < node.children.len()
        invariant
            node.fits(b.len() as int),
            b == source.spec_bytes(),
            index@ == line_starts_of(b),
            names == crate::occurrences::name_ranges(declarations@),
            0 <= i <= node.children@.len(),
            call_views(out@) == mid + calls_among(node.children@, i as int, b, index@, names),
        decreases node.children@.len() - i,
    {
        if node.children[i].named {
            assert(node.children@[i as int].fits(b.len() as int));
            collect_call_sites(&node.children[i], source, index, declarations, out);
        }
        assert(call_views(out@) =~= mid + calls_among(node.children@, i + 1, b, index@, names));
        i = i + 1;
    }
    assert(call_views(out@) =~= start + calls_of(*node, b, index@, names));
}

/// Calls are ordered by the start of the callee, then by the argument list.
pub open spec fn call_after(a: CallSiteView, b: CallSiteView) -> bool {
    if a.callee_range.start != b.callee_range.start {
        crate::issue_sort::position_before(b.callee_range.start, a.callee_range.start)
    } else if a.argument_range.start != b.argument_range.start {
        a.argument_range.start > b.argument_range.start
    } else {
        a.argument_range.end > b.argument_range.end
    }
}

/// The first call from `j` on that comes after `x`; the count when none does.
pub open spec fn first_after(s: Seq<CallSiteView>, x: CallSiteView, j: int) -> int
    decreases s.len() - j,
{
    if j < 0 || j >= s.len() {
        s.len() as int
    } else if call_after(s[j], x) {
        j
    } else {
        first_after(s, x, j + 1)
    }
}

/// The calls in order, calls of the same place keeping the order they
/// were found in (a stable sort by place).
pub open spec fn sorted_calls(s: Seq<CallSiteView>) -> Seq<CallSiteView>
    decreases s.len(),
{
    if s.len() == 0 {
        s
    } else {
        let sorted = sorted_calls(s.drop_last());
        sorted.insert(first_after(sorted, s.last(), 0), s.last())
    }
}

/// Two calls at the same place: the same callee range and argument list.
pub open spec fn same_place(a: CallSiteView, b: CallSiteView) -> bool {
    a.callee_range == b.callee_range && a.argument_range == b.argument_range
}

/// A run of calls at the same place kept once, the first of it.
pub open spec fn deduplicated_calls(s: Seq<CallSiteView>) -> Seq<CallSiteView>
    decreases s.len(),
{
    if s.len() == 0 {
        s
    } else {
        let d = deduplicated_calls(s.drop_last());
        if d.len() > 0 && same_place(d.last(), s.last()) {
            d
        } else {
            d.push(s.last())
        }
    }
}

fn after(a: &SemanticCallSite, b: &SemanticCallSite) -> (r: bool)
    ensures
        r == call_after(a@, b@),
{
    if a.callee_range.start != b.callee_range.start {
        let p = a.callee_range.start;
        let q = b.callee_range.start;
        q.line < p.line || (q.line == p.line && q.character < p.character)
    } else if a.argument_range.start != b.argument_range.start {
        a.argument_range.start > b.argument_range.start
    } else {
        a.argument_range.end > b.argument_range.end
    }
}

/// The calls sorted by place and each place once (the end of `extract`).
pub fn order_calls(calls: Vec<SemanticCallSite>) -> (r: Vec<SemanticCallSite>)
    ensures
        call_views(r@) == deduplicated_calls(sorted_calls(call_views(calls@))),
{
    let ghost input = call_views(calls@);
    let mut sorted: Vec<SemanticCallSite> = Vec::new();
    let mut rest = calls;
    let ghost mut taken: Seq<CallSiteView> = Seq::empty();
    assert(taken + call_views(rest@) =~= input);
    while rest.len() > 0
        invariant
            taken + call_views(rest@) == input,
            call_views(sorted@) == sorted_calls(taken),
        decreases rest@.len(),
    {
        let ghost before_rest = call_views(rest@);
        let c = rest.remove(0);
        proof {
            assert(before_rest =~= seq![c@] + call_views(rest@));
            assert(taken.push(c@) + call_views(rest@) =~= taken + before_rest);
        }
        let ghost sv = call_views(sorted@);
        let mut j: usize = 0;
        while j < sorted.len() && !after(&sorted[j], &c)
            invariant
                0 <= j <= sorted@.len(),
                sv == call_views(sorted@),
                first_after(sv, c@, j as int) == first_after(sv, c@, 0),
            decreases sorted@.len() - j,
        {
            j = j + 1;
        }
        proof {
            assert(taken.push(c@).drop_last() =~= taken);
        }
        sorted.insert(j, c);
        proof {
            assert(call_views(sorted@) =~= sv.insert(j as int, c@));
            taken = taken.push(c@);
        }
    }
    assert(taken =~= input);
    let ghost sv = call_views(sorted@);
    let mut out: Vec<SemanticCallSite> = Vec::new();
    let mut remaining = sorted;
    let ghost mut done: Seq<CallSiteView> = Seq::empty();
    assert(done + call_views(remaining@) =~= sv);
    while remaining.len() > 0
        invariant
            done + call_views(remaining@) == sv,
            call_views(out@) == deduplicated_calls(done),
        decreases remaining@.len(),
    {
        let ghost before_rest = call_views(remaining@);
        let c = remaining.remove(0);
        proof {
            assert(before_rest =~= seq![c@] + call_views(remaining@));
            assert(done.push(c@) + call_views(remaining@) =~= done + before_rest);
            assert(done.push(c@).drop_last() =~= done);
        }
        let n = out.len();
        let keep = if n > 0 {
            let last = &out[n - 1];
            !(last.callee_range == c.callee_range && last.argument_range == c.argument_range)
        } else {
            true
        };
        let ghost ov = call_views(out@);
        if keep {
            out.push(c);
            assert(call_views(out@) =~= ov.push(c@));
        }
        proof {
            done = done.push(c@);
        }
    }
    assert(done =~= sv);
    out
}

} // verus!
