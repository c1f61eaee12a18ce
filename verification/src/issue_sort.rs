//! The order in which semantic issues are reported: by start, end, code and
//! message, each place, code and message once.
use vstd::prelude::*;
use vstd::string::StringSliceAdditionalSpecFns;
use vstd::utf8::encode_utf8;
use crate::line_index::Position;
use crate::text::string_bytes;
use crate::validation::{SemanticIssue, SemanticIssueCode, SemanticIssueView, issue_views};
use crate::workspace::bytes_less;

verus! {

/// Strict order of positions: by line, then by character.
pub open spec fn position_before(a: Position, b: Position) -> bool {
    a.line < b.line || (a.line == b.line && a.character < b.character)
}

/// The bytes of an issue code.
pub open spec fn code_bytes(c: SemanticIssueCode) -> Seq<u8> {
    encode_utf8(c.spec_text())
}

/// Two issues agree on range, code text and message.
#[verifier::opaque]
pub open spec fn same_key(a: SemanticIssueView, b: SemanticIssueView) -> bool {
    a.range == b.range && code_bytes(a.code) == code_bytes(b.code) && a.message == b.message
}

/// The report order of issues: by start, then end, then code, then message.
#[verifier::opaque]
pub open spec fn issue_before(a: SemanticIssueView, b: SemanticIssueView) -> bool {
    if a.range.start != b.range.start {
        position_before(a.range.start, b.range.start)
    } else if a.range.end != b.range.end {
        position_before(a.range.end, b.range.end)
    } else if code_bytes(a.code) != code_bytes(b.code) {
        bytes_less(code_bytes(a.code), code_bytes(b.code))
    } else {
        bytes_less(a.message, b.message)
    }
}

/// Issues in strictly increasing report order.
pub open spec fn strictly_ordered(s: Seq<SemanticIssueView>) -> bool {
    forall|i: int, j: int| 0 <= i < j < s.len() ==> issue_before(#[trigger] s[i], #[trigger] s[j])
}

/// `y` is the first issue of `input` with its range, code and message.
#[verifier::opaque]
pub open spec fn first_of_key(input: Seq<SemanticIssueView>, y: SemanticIssueView, n: int) -> bool {
    exists|t: int|
        0 <= t < n && #[trigger] input[t] == y && forall|u: int| 0 <= u < t ==> !same_key(#[trigger] input[u], y)
}

/// `out` is `input` in report order, the first issue of each range, code
/// and message kept and the later ones dropped.
pub open spec fn ordered_unique(input: Seq<SemanticIssueView>, out: Seq<SemanticIssueView>) -> bool {
    &&& strictly_ordered(out)
    &&& forall|k: int| 0 <= k < out.len() ==> first_of_key(input, #[trigger] out[k], input.len() as int)
    &&& forall|t: int| 0 <= t < input.len() ==> has_same_key(out, #[trigger] input[t])
}

/// Some issue of `out` agrees with `x` on range, code and message.
pub open spec fn has_same_key(out: Seq<SemanticIssueView>, x: SemanticIssueView) -> bool {
    exists|k: int| 0 <= k < out.len() && same_key(x, #[trigger] out[k])
}

pub proof fn lemma_bytes_less_irreflexive(a: Seq<u8>)
    ensures
        !bytes_less(a, a),
    decreases a.len(),
{
    if a.len() > 0 {
        lemma_bytes_less_irreflexive(a.drop_first());
    }
}

pub proof fn lemma_bytes_less_transitive(a: Seq<u8>, b: Seq<u8>, c: Seq<u8>)
    requires
        bytes_less(a, b),
        bytes_less(b, c),
    ensures
        bytes_less(a, c),
    decreases a.len(),
{
    if a.len() > 0 && b.len() > 0 && c.len() > 0 && a[0] == b[0] && b[0] == c[0] {
        lemma_bytes_less_transitive(a.drop_first(), b.drop_first(), c.drop_first());
    }
}

pub proof fn lemma_bytes_less_total(a: Seq<u8>, b: Seq<u8>)
    requires
        a != b,
    ensures
        bytes_less(a, b) || bytes_less(b, a),
    decreases a.len(),
{
    if a.len() > 0 && b.len() > 0 && a[0] == b[0] {
        if a.drop_first() == b.drop_first() {
            assert(a =~= seq![a[0]] + a.drop_first());
            assert(b =~= seq![b[0]] + b.drop_first());
        }
        lemma_bytes_less_total(a.drop_first(), b.drop_first());
    } else if a.len() == 0 && b.len() == 0 {
        assert(a =~= b);
    }
}

pub proof fn lemma_before_irreflexive(a: SemanticIssueView)
    ensures
        !issue_before(a, a),
{
    reveal(issue_before);
    reveal(same_key);
    lemma_bytes_less_irreflexive(a.message);
}

pub proof fn lemma_before_transitive(a: SemanticIssueView, b: SemanticIssueView, c: SemanticIssueView)
    requires
        issue_before(a, b),
        issue_before(b, c),
    ensures
        issue_before(a, c),
{
    reveal(issue_before);
    reveal(same_key);
    if a.range.start == b.range.start && b.range.start == c.range.start && a.range.end == b.range.end && b.range.end
        == c.range.end {
        if code_bytes(a.code) != code_bytes(b.code) && code_bytes(b.code) != code_bytes(c.code) {
            lemma_bytes_less_transitive(code_bytes(a.code), code_bytes(b.code), code_bytes(c.code));
            if code_bytes(a.code) == code_bytes(c.code) {
                lemma_bytes_less_irreflexive(code_bytes(a.code));
                lemma_bytes_less_transitive(code_bytes(b.code), code_bytes(c.code), code_bytes(b.code));
                lemma_bytes_less_irreflexive(code_bytes(b.code));
            }
        } else if code_bytes(a.code) == code_bytes(b.code) && code_bytes(b.code) == code_bytes(c.code) {
            lemma_bytes_less_transitive(a.message, b.message, c.message);
        }
    }
}

pub proof fn lemma_before_total(a: SemanticIssueView, b: SemanticIssueView)
    requires
        !same_key(a, b),
    ensures
        issue_before(a, b) || issue_before(b, a),
{
    reveal(issue_before);
    reveal(same_key);
    if a.range.start == b.range.start && a.range.end == b.range.end {
        assert(a.range == b.range);
        if code_bytes(a.code) != code_bytes(b.code) {
            lemma_bytes_less_total(code_bytes(a.code), code_bytes(b.code));
        } else {
            lemma_bytes_less_total(a.message, b.message);
        }
    }
}

/// The order depends on the key alone.
pub proof fn lemma_before_by_key(a: SemanticIssueView, b: SemanticIssueView, c: SemanticIssueView)
    requires
        same_key(b, c),
    ensures
        issue_before(a, b) == issue_before(a, c),
        issue_before(b, a) == issue_before(c, a),
{
    reveal(issue_before);
    reveal(same_key);
}

/// Agreeing on the key is symmetric and transitive.
pub proof fn lemma_same_key_equiv(a: SemanticIssueView, b: SemanticIssueView, c: SemanticIssueView)
    ensures
        same_key(a, a),
        same_key(a, b) ==> same_key(b, a),
        same_key(a, b) && same_key(b, c) ==> same_key(a, c),
{
    reveal(same_key);
}

/// The issue of the same key is not before another.
pub proof fn lemma_same_key_not_before(a: SemanticIssueView, b: SemanticIssueView)
    requires
        same_key(a, b),
    ensures
        !issue_before(a, b),
{
    reveal(issue_before);
    reveal(same_key);
    lemma_bytes_less_irreflexive(a.message);
}

pub(crate) fn less_slices(a: &[u8], b: &[u8]) -> (r: i8)
    ensures
        (r < 0) == bytes_less(a@, b@),
        (r == 0) == (a@ == b@),
        (r > 0) == bytes_less(b@, a@),
{
    let mut i: usize = 0;
    assert(a@.subrange(0, a@.len() as int) =~= a@);
    assert(b@.subrange(0, b@.len() as int) =~= b@);
    while i < a.len() && i < b.len() && a[i] == b[i]
        invariant
            0 <= i <= a@.len(),
            i <= b@.len(),
            a@.subrange(0, i as int) =~= b@.subrange(0, i as int),
            bytes_less(a@, b@) == bytes_less(a@.subrange(i as int, a@.len() as int), b@.subrange(
                i as int,
                b@.len() as int,
            )),
            bytes_less(b@, a@) == bytes_less(b@.subrange(i as int, b@.len() as int), a@.subrange(
                i as int,
                a@.len() as int,
            )),
        decreases a@.len() - i,
    {
        proof {
            let sa = a@.subrange(i as int, a@.len() as int);
            let sb = b@.subrange(i as int, b@.len() as int);
            assert(sa.drop_first() =~= a@.subrange(i + 1, a@.len() as int));
            assert(sb.drop_first() =~= b@.subrange(i + 1, b@.len() as int));
            assert(a@.subrange(0, i + 1) =~= a@.subrange(0, i as int).push(a@[i as int]));
            assert(b@.subrange(0, i + 1) =~= b@.subrange(0, i as int).push(b@[i as int]));
        }
        i = i + 1;
    }
    proof {
        let sa = a@.subrange(i as int, a@.len() as int);
        let sb = b@.subrange(i as int, b@.len() as int);
        if i < a.len() && i < b.len() {
            assert(sa[0] == a@[i as int] && sb[0] == b@[i as int]);
            assert(a@[i as int] != b@[i as int]);
        }
        if i == a.len() && i == b.len() {
            assert(a@ =~= a@.subrange(0, i as int));
            assert(b@ =~= b@.subrange(0, i as int));
        }
        if i == a.len() && i < b.len() {
            assert(a@.len() != b@.len());
        }
        if i == b.len() && i < a.len() {
            assert(a@.len() != b@.len());
        }
    }
    if i == a.len() {
        if i < b.len() {
            -1
        } else {
            0
        }
    } else if i == b.len() {
        1
    } else if a[i] < b[i] {
        -1
    } else {
        1
    }
}

pub(crate) fn position_before_exec(a: Position, b: Position) -> (r: bool)
    ensures
        r == position_before(a, b),
{
    a.line < b.line || (a.line == b.line && a.character < b.character)
}

/// Compares two issues in report order: negative, zero when the keys agree,
/// positive.
fn compare_issues(a: &SemanticIssue, b: &SemanticIssue) -> (r: i8)
    ensures
        (r < 0) == issue_before(a@, b@),
        (r == 0) == same_key(a@, b@),
        (r > 0) == issue_before(b@, a@),
{
    proof {
        reveal(issue_before);
        reveal(same_key);
        lemma_bytes_less_irreflexive(string_bytes(a.message));
        lemma_bytes_less_irreflexive(code_bytes(a.code));
    }
    if a.range.start != b.range.start {
        if position_before_exec(a.range.start, b.range.start) {
            -1
        } else {
            1
        }
    } else if a.range.end != b.range.end {
        if position_before_exec(a.range.end, b.range.end) {
            -1
        } else {
            1
        }
    } else {
        let c = less_slices(a.code.text().as_bytes(), b.code.text().as_bytes());
        if c != 0 {
            c
        } else {
            less_slices(a.message.as_str().as_bytes(), b.message.as_str().as_bytes())
        }
    }
}

fn copy_issue(x: &SemanticIssue) -> (r: SemanticIssue)
    ensures
        r@ == x@,
{
    SemanticIssue { range: x.range, code: x.code, message: x.message.clone() }
}

/// What the order keeps after `i` issues, with the place in `input` of
/// each kept issue and the kept issue that each of the first `i` agrees with.
pub open spec fn kept(
    input: Seq<SemanticIssueView>,
    out: Seq<SemanticIssueView>,
    pos: Seq<int>,
    cover: Seq<int>,
    i: int,
) -> bool {
    &&& strictly_ordered(out)
    &&& pos.len() == out.len()
    &&& forall|k: int| 0 <= k < out.len() ==> 0 <= #[trigger] pos[k] < i && input[pos[k]] == out[k]
    &&& forall|k: int, u: int| 0 <= k < out.len() && 0 <= u < pos[k] ==> !same_key(#[trigger] input[u], #[trigger] out[k])
    &&& cover.len() == i
    &&& forall|t: int| 0 <= t < i ==> 0 <= #[trigger] cover[t] < out.len() && same_key(input[t], out[cover[t]])
}

proof fn lemma_keep_skipping(
    input: Seq<SemanticIssueView>,
    out: Seq<SemanticIssueView>,
    pos: Seq<int>,
    cover: Seq<int>,
    i: int,
    j: int,
)
    requires
        0 <= i < input.len(),
        kept(input, out, pos, cover, i),
        0 <= j < out.len(),
        same_key(out[j], input[i]),
    ensures
        kept(input, out, pos, cover.push(j), i + 1),
{
    lemma_same_key_equiv(out[j], input[i], input[i]);
    let c2 = cover.push(j);
    assert forall|t: int| 0 <= t < i + 1 implies 0 <= #[trigger] c2[t] < out.len() && same_key(input[t], out[c2[t]]) by {
        if t < i {
            assert(c2[t] == cover[t]);
        }
    }
}

proof fn lemma_keep_inserting(
    input: Seq<SemanticIssueView>,
    out: Seq<SemanticIssueView>,
    pos: Seq<int>,
    cover: Seq<int>,
    i: int,
    j: int,
)
    requires
        0 <= i < input.len(),
        kept(input, out, pos, cover, i),
        0 <= j <= out.len(),
        forall|a: int| 0 <= a < j ==> issue_before(#[trigger] out[a], input[i]),
        j < out.len() ==> issue_before(input[i], out[j]),
    ensures
        kept(
            input,
            out.insert(j, input[i]),
            pos.insert(j, i),
            Seq::new((i + 1) as nat, |t: int| if t == i { j } else if cover[t] >= j { cover[t] + 1 } else { cover[t] }),
            i + 1,
        ),
{
    let xv = input[i];
    let nv = out.insert(j, xv);
    let np = pos.insert(j, i);
    let nc = Seq::new((i + 1) as nat, |t: int| if t == i { j } else if cover[t] >= j { cover[t] + 1 } else { cover[t] });
    assert forall|u: int| 0 <= u < i implies !same_key(#[trigger] input[u], xv) by {
        if same_key(input[u], xv) {
            let k = cover[u];
            lemma_same_key_equiv(out[k], input[u], xv);
            lemma_same_key_equiv(input[u], out[k], xv);
            assert(same_key(out[k], xv));
            if k < j {
                lemma_same_key_not_before(out[k], xv);
            } else if k == j {
                lemma_same_key_equiv(out[k], xv, xv);
                lemma_same_key_not_before(xv, out[k]);
            } else {
                assert(issue_before(out[j], out[k]));
                lemma_before_by_key(out[j], out[k], xv);
                lemma_before_transitive(xv, out[j], xv);
                lemma_before_irreflexive(xv);
            }
        }
    }
    assert forall|a: int, b: int| 0 <= a < b < nv.len() implies issue_before(#[trigger] nv[a], #[trigger] nv[b]) by {
        if b < j {
            assert(nv[a] == out[a] && nv[b] == out[b]);
        } else if b == j {
            assert(nv[a] == out[a] && nv[b] == xv);
        } else if a < j {
            assert(nv[a] == out[a] && nv[b] == out[b - 1]);
            if b - 1 > j {
                assert(issue_before(out[j], out[b - 1]));
                lemma_before_transitive(xv, out[j], out[b - 1]);
            }
            lemma_before_transitive(out[a], xv, out[b - 1]);
        } else if a == j {
            assert(nv[a] == xv && nv[b] == out[b - 1]);
            if b - 1 > j {
                assert(issue_before(out[j], out[b - 1]));
                lemma_before_transitive(xv, out[j], out[b - 1]);
            }
        } else {
            assert(nv[a] == out[a - 1] && nv[b] == out[b - 1]);
        }
    }
    assert forall|k: int| 0 <= k < nv.len() implies 0 <= #[trigger] np[k] < i + 1 && input[np[k]] == nv[k] by {
        if k < j {
            assert(np[k] == pos[k] && nv[k] == out[k]);
        } else if k > j {
            assert(np[k] == pos[k - 1] && nv[k] == out[k - 1]);
        }
    }
    assert forall|k: int, u: int| 0 <= k < nv.len() && 0 <= u < np[k] implies !same_key(#[trigger] input[u], #[trigger] nv[k]) by {
        if k < j {
            assert(np[k] == pos[k] && nv[k] == out[k]);
        } else if k > j {
            assert(np[k] == pos[k - 1] && nv[k] == out[k - 1]);
        }
    }
    assert forall|t: int| 0 <= t < i + 1 implies 0 <= #[trigger] nc[t] < nv.len() && same_key(input[t], nv[nc[t]]) by {
        if t == i {
            lemma_same_key_equiv(xv, xv, xv);
        } else {
            let k = cover[t];
            if k >= j {
                assert(nv[k + 1] == out[k]);
            } else {
                assert(nv[k] == out[k]);
            }
        }
    }
}

/// The issues in report order, each range, code and message once.
pub fn order_issues(issues: &Vec<SemanticIssue>) -> (r: Vec<SemanticIssue>)
    ensures
        ordered_unique(issue_views(issues@), issue_views(r@)),
{
    let ghost input = issue_views(issues@);
    let mut out: Vec<SemanticIssue> = Vec::new();
    let ghost mut pos: Seq<int> = Seq::empty();
    let ghost mut cover: Seq<int> = Seq::empty();
    let mut i: usize = 0;
    while i < issues.len()
        invariant
            0 <= i <= issues@.len(),
            input == issue_views(issues@),
            kept(input, issue_views(out@), pos, cover, i as int),
        decreases issues@.len() - i,
    {
        let x = &issues[i];
        let ghost xv = input[i as int];
        assert(x@ == xv);
        let ghost ov = issue_views(out@);
        let mut j: usize = 0;
        let mut c: i8 = 1;
        while j < out.len()
            invariant
                0 <= j <= out@.len(),
                ov == issue_views(out@),
                x@ == xv,
                forall|a: int| 0 <= a < j ==> issue_before(#[trigger] ov[a], xv),
            ensures
                0 <= j <= out@.len(),
                forall|a: int| 0 <= a < j ==> issue_before(#[trigger] ov[a], xv),
                j < out@.len() ==> (c >= 0 && (c == 0) == same_key(ov[j as int], xv) && (c > 0) == issue_before(
                    xv,
                    ov[j as int],
                )),
            decreases out@.len() - j,
        {
            c = compare_issues(&out[j], x);
            if c >= 0 {
                break;
            }
            j = j + 1;
        }
        if j < out.len() && c == 0 {
            proof {
                lemma_keep_skipping(input, ov, pos, cover, i as int, j as int);
                cover = cover.push(j as int);
            }
        } else {
            proof {
                lemma_keep_inserting(input, ov, pos, cover, i as int, j as int);
                pos = pos.insert(j as int, i as int);
                let old_cover = cover;
                cover = Seq::new(
                    (i + 1) as nat,
                    |t: int| if t == i { j as int } else if old_cover[t] >= j { old_cover[t] + 1 } else { old_cover[t] },
                );
            }
            let y = copy_issue(x);
            out.insert(j, y);
            assert(issue_views(out@) =~= ov.insert(j as int, xv));
        }
        i = i + 1;
    }
    proof {
        let ov = issue_views(out@);
        reveal(first_of_key);
        assert forall|k: int| 0 <= k < ov.len() implies first_of_key(input, #[trigger] ov[k], input.len() as int) by {
            let t = pos[k];
            assert(0 <= t < input.len() && input[t] == ov[k]);
            assert forall|u: int| 0 <= u < t implies !same_key(#[trigger] input[u], ov[k]) by {
            }
        }
        assert forall|t: int| 0 <= t < input.len() implies has_same_key(ov, #[trigger] input[t]) by {
            let k = cover[t];
            assert(0 <= k < ov.len());
            assert(same_key(input[t], ov[k]));
        }
        assert(ordered_unique(input, ov));
    }
    out
}

/// The first document from `i` on whose URI is `uri`; the count when none is.
pub open spec fn document_with_uri(ws: crate::workspace::WorkspaceIndex, uri: Seq<u8>, i: int) -> int
    decreases ws.documents@.len() - i,
{
    if i < 0 || i >= ws.documents@.len() {
        ws.documents@.len() as int
    } else if string_bytes(ws.documents@[i].semantic.uri) == uri {
        i
    } else {
        document_with_uri(ws, uri, i + 1)
    }
}

impl crate::workspace::WorkspaceIndex {
    /// The index of the document with a URI (`documents.get(uri)`).
    pub fn document_index(&self, uri: &str) -> (r: Option<usize>)
        ensures
            match r {
                Some(c) => c as int == document_with_uri(*self, uri.spec_bytes(), 0) && c < self.documents@.len(),
                None => document_with_uri(*self, uri.spec_bytes(), 0) == self.documents@.len(),
            },
    {
        let mut i: usize = 0;
        while i < self.documents.len()
            invariant
                0 <= i <= self.documents@.len(),
                document_with_uri(*self, uri.spec_bytes(), i as int) == document_with_uri(*self, uri.spec_bytes(), 0),
            decreases self.documents@.len() - i,
        {
            if crate::text::bytes_equal(self.documents[i].semantic.uri.as_str().as_bytes(), uri.as_bytes()) {
                return Some(i);
            }
            i = i + 1;
        }
        None
    }

    /// The semantic issues of a document, in report order and each range,
    /// code and message once (`semantic_diagnostics`); none for a document
    /// that is not indexed.
    pub fn semantic_diagnostics(&self, uri: &str) -> (r: Vec<SemanticIssue>)
        ensures
            ({
                let c = document_with_uri(*self, uri.spec_bytes(), 0);
                &&& c >= self.documents@.len() ==> r@.len() == 0
                &&& c < self.documents@.len() ==> ordered_unique(
                    crate::validation::document_issues(*self, c),
                    issue_views(r@),
                )
            }),
    {
        match self.document_index(uri) {
            Some(cur) => {
                let found = self.gather_issues(cur);
                order_issues(&found)
            },
            None => Vec::new(),
        }
    }

    /// Indexes a document in place of the one with its URI, or adds it.
    pub fn overlay(&mut self, document: crate::workspace::IndexedDocument)
        ensures
            ({
                let c = document_with_uri(*old(self), string_bytes(document.semantic.uri), 0);
                &&& c < old(self).documents@.len() ==> final(self).documents@ == old(self).documents@.update(c, document)
                &&& c >= old(self).documents@.len() ==> final(self).documents@ == old(self).documents@.push(document)
            }),
    {
        match self.document_index(document.semantic.uri.as_str()) {
            Some(i) => {
                self.documents.set(i, document);
            },
            None => {
                self.documents.push(document);
            },
        }
    }

    /// Drops the document with a URI, handing it back (the table update of
    /// `close`).
    pub fn remove_document(&mut self, uri: &str) -> (r: Option<crate::workspace::IndexedDocument>)
        ensures
            ({
                let c = document_with_uri(*old(self), uri.spec_bytes(), 0);
                &&& c < old(self).documents@.len() ==> (r == Some(old(self).documents@[c]) && final(self).documents@
                    == old(self).documents@.remove(c))
                &&& c >= old(self).documents@.len() ==> (r is None && final(self).documents@ == old(self).documents@)
            }),
    {
        match self.document_index(uri) {
            Some(i) => Some(self.documents.remove(i)),
            None => None,
        }
    }
}

} // verus!
