//! Syntax diagnostics: the structural issues of the block keywords and the
//! missing or invalid syntax that the parser reports, without reporting a
//! place twice.
use vstd::prelude::*;
use vstd::string::StringSliceAdditionalSpecFns;
use crate::line_index::{LineIndex, TextRange, line_starts_of};
use crate::structure::{ByteRange, StructuralIssue, StructuralIssueKind, validate, validate_spec};
use crate::syntax::{NodeKind, SyntaxNode, span_range};
use crate::text::{
    append_text, bytes_equal, equal_ignoring_case, lower_seq, lowercase_range, owned,
    same_ignoring_case, str_equal_ignoring_case, string_bytes,
};

verus! {

/// Whether a range holds an offset, both ends included.
pub fn contains(range: &ByteRange, offset: usize) -> (r: bool)
    ensures
        r == (range.start <= offset && offset <= range.end),
{
    range.start <= offset && offset <= range.end
}

pub open spec fn spec_nonempty_range(range: ByteRange) -> ByteRange {
    if range.start == range.end {
        ByteRange {
            start: range.start,
            end: if range.start == usize::MAX {
                usize::MAX
            } else {
                (range.start + 1) as usize
            },
        }
    } else {
        range
    }
}

/// An empty range widened to one byte, so that an editor shows it.
pub fn nonempty_range(range: ByteRange) -> (r: ByteRange)
    ensures
        r == spec_nonempty_range(range),
{
    if range.start == range.end {
        ByteRange { start: range.start, end: range.start.saturating_add(1) }
    } else {
        range
    }
}

/// The name shown for a missing node: the block closers in their usual
/// spelling, every other kind as the grammar names it.
pub open spec fn display_missing(kind: Seq<u8>) -> Seq<u8> {
    let k = lower_seq(kind);
    if k == "endevent".spec_bytes() {
        "EndEvent".spec_bytes()
    } else if k == "endfunction".spec_bytes() {
        "EndFunction".spec_bytes()
    } else if k == "endgroup".spec_bytes() {
        "EndGroup".spec_bytes()
    } else if k == "endif".spec_bytes() {
        "EndIf".spec_bytes()
    } else if k == "endlockguard".spec_bytes() {
        "EndLockGuard".spec_bytes()
    } else if k == "endproperty".spec_bytes() {
        "EndProperty".spec_bytes()
    } else if k == "endstate".spec_bytes() {
        "EndState".spec_bytes()
    } else if k == "endstruct".spec_bytes() {
        "EndStruct".spec_bytes()
    } else if k == "endtrylockguard".spec_bytes() {
        "EndTryLockGuard".spec_bytes()
    } else if k == "endwhile".spec_bytes() {
        "EndWhile".spec_bytes()
    } else {
        kind
    }
}

pub fn display_missing_node(kind: &str) -> (r: String)
    ensures
        string_bytes(r) == display_missing(kind.spec_bytes()),
{
    let b = kind.as_bytes();
    let k = lowercase_range(b, 0, b.len());
    assert(b@.subrange(0, b@.len() as int) =~= b@);
    let k = k.as_slice();
    if bytes_equal(k, "endevent".as_bytes()) {
        owned("EndEvent")
    } else if bytes_equal(k, "endfunction".as_bytes()) {
        owned("EndFunction")
    } else if bytes_equal(k, "endgroup".as_bytes()) {
        owned("EndGroup")
    } else if bytes_equal(k, "endif".as_bytes()) {
        owned("EndIf")
    } else if bytes_equal(k, "endlockguard".as_bytes()) {
        owned("EndLockGuard")
    } else if bytes_equal(k, "endproperty".as_bytes()) {
        owned("EndProperty")
    } else if bytes_equal(k, "endstate".as_bytes()) {
        owned("EndState")
    } else if bytes_equal(k, "endstruct".as_bytes()) {
        owned("EndStruct")
    } else if bytes_equal(k, "endtrylockguard".as_bytes()) {
        owned("EndTryLockGuard")
    } else if bytes_equal(k, "endwhile".as_bytes()) {
        owned("EndWhile")
    } else {
        owned(kind)
    }
}

/// The kinds of syntax diagnostics.
#[derive(Clone, Copy, Debug, PartialEq, Eq, Structural)]
pub enum SyntaxIssueCode {
    MissingSyntax,
    SyntaxError,
}

/// A syntax issue over a byte range.
pub struct SyntaxIssue {
    pub range: ByteRange,
    pub code: SyntaxIssueCode,
    pub message: String,
}

pub struct SyntaxIssueView {
    pub range: ByteRange,
    pub code: SyntaxIssueCode,
    pub message: Seq<u8>,
}

impl View for SyntaxIssue {
    type V = SyntaxIssueView;

    open spec fn view(&self) -> SyntaxIssueView {
        SyntaxIssueView { range: self.range, code: self.code, message: string_bytes(self.message) }
    }
}

pub open spec fn issue_views(s: Seq<SyntaxIssue>) -> Seq<SyntaxIssueView> {
    s.map_values(|i: SyntaxIssue| i@)
}

/// A node whose span holds the start of a structural issue.
pub open spec fn covered(node: SyntaxNode, ranges: Seq<ByteRange>) -> bool {
    exists|i: int| 0 <= i < ranges.len() && node.start <= (#[trigger] ranges[i]).start <= node.end
}

/// A name that a structural issue already reports as missing.
pub open spec fn keyword_listed(keywords: Seq<Seq<u8>>, name: Seq<u8>) -> bool {
    exists|i: int| 0 <= i < keywords.len() && same_ignoring_case(#[trigger] keywords[i], name)
}

/// The UTF-8 bytes of each text.
pub open spec fn str_bytes(keywords: Seq<&str>) -> Seq<Seq<u8>> {
    keywords.map_values(|k: &str| k.spec_bytes())
}

/// The syntax issues of a subtree that no structural issue covers: each
/// missing node (unless its keyword is already reported), and each error
/// node, whose children are then not examined.
pub open spec fn issues_of(node: SyntaxNode, ranges: Seq<ByteRange>, keywords: Seq<Seq<u8>>) -> Seq<
    SyntaxIssueView,
>
    decreases node, 0int,
{
    let rest = issues_upto(node.children@, node.children@.len() as int, ranges, keywords);
    if node.missing && !covered(node, ranges) {
        let name = display_missing(string_bytes(node.kind_name));
        if keyword_listed(keywords, name) {
            rest
        } else {
            seq![
                SyntaxIssueView {
                    range: ByteRange { start: node.start, end: node.start },
                    code: SyntaxIssueCode::MissingSyntax,
                    message: "Missing ".spec_bytes() + name,
                },
            ] + rest
        }
    } else if node.kind == NodeKind::Error && !covered(node, ranges) {
        seq![
            SyntaxIssueView {
                range: spec_nonempty_range(ByteRange { start: node.start, end: node.end }),
                code: SyntaxIssueCode::SyntaxError,
                message: "Invalid Papyrus syntax".spec_bytes(),
            },
        ]
    } else {
        rest
    }
}

/// The syntax issues of the first `k` children.
pub open spec fn issues_upto(
    cs: Seq<SyntaxNode>,
    k: int,
    ranges: Seq<ByteRange>,
    keywords: Seq<Seq<u8>>,
) -> Seq<SyntaxIssueView>
    decreases cs, k,
{
    if k <= 0 || k > cs.len() {
        Seq::empty()
    } else {
        issues_upto(cs, k - 1, ranges, keywords) + issues_of(cs[k - 1], ranges, keywords)
    }
}

fn is_covered(node: &SyntaxNode, ranges: &Vec<ByteRange>) -> (r: bool)
    ensures
        r == covered(*node, ranges@),
{
    let mut i: usize = 0;
    let node_range = ByteRange { start: node.start, end: node.end };
    while i < ranges.len()
        invariant
            0 <= i <= ranges@.len(),
            node_range == (ByteRange { start: node.start, end: node.end }),
            forall|j: int| 0 <= j < i ==> !(node.start <= (#[trigger] ranges@[j]).start <= node.end),
        decreases ranges@.len() - i,
    {
        if contains(&node_range, ranges[i].start) {
            return true;
        }
        i = i + 1;
    }
    false
}

fn is_listed(keywords: &Vec<&str>, name: &String) -> (r: bool)
    ensures
        r == keyword_listed(str_bytes(keywords@), string_bytes(*name)),
{
    let mut i: usize = 0;
    while i < keywords.len()
        invariant
            0 <= i <= keywords@.len(),
            forall|j: int| 0 <= j < i ==> !same_ignoring_case(#[trigger] str_bytes(keywords@)[j], string_bytes(*name)),
        decreases keywords@.len() - i,
    {
        if str_equal_ignoring_case(keywords[i], name.as_str()) {
            assert(str_bytes(keywords@)[i as int] == keywords@[i as int].spec_bytes());
            return true;
        }
        i = i + 1;
    }
    false
}

/// Appends the syntax issues of a subtree.
pub fn collect_syntax_issues(
    node: &SyntaxNode,
    structural_ranges: &Vec<ByteRange>,
    structural_missing_keywords: &Vec<&str>,
    issues: &mut Vec<SyntaxIssue>,
)
    ensures
        issue_views(final(issues)@) == issue_views(old(issues)@) + issues_of(
            *node,
            structural_ranges@,
            str_bytes(structural_missing_keywords@),
        ),
    decreases node,
{
    let ghost start = issue_views(issues@);
    let ghost ranges = structural_ranges@;
    let ghost keywords = str_bytes(structural_missing_keywords@);
    let cov = is_covered(node, structural_ranges);
    if node.missing && !cov {
        let name = display_missing_node(node.kind_name.as_str());
        if !is_listed(structural_missing_keywords, &name) {
            let mut message = owned("Missing ");
            append_text(&mut message, name.as_str());
            issues.push(
                SyntaxIssue {
                    range: ByteRange { start: node.start, end: node.start },
                    code: SyntaxIssueCode::MissingSyntax,
                    message,
                },
            );
        }
    } else if node.kind == NodeKind::Error && !cov {
        issues.push(
            SyntaxIssue {
                range: nonempty_range(ByteRange { start: node.start, end: node.end }),
                code: SyntaxIssueCode::SyntaxError,
                message: owned("Invalid Papyrus syntax"),
            },
        );
        assert(issue_views(issues@) =~= start + issues_of(*node, ranges, keywords));
        return;
    }
    let ghost middle = issue_views(issues@);
    let mut i: usize = 0;
    assert(middle + issues_upto(node.children@, 0, ranges, keywords) =~= middle);
    while i < node.children.len()
        invariant
            0 <= i <= node.children@.len(),
            ranges == structural_ranges@,
            keywords == str_bytes(structural_missing_keywords@),
            issue_views(issues@) == middle + issues_upto(node.children@, i as int, ranges, keywords),
        decreases node.children@.len() - i,
    {
        collect_syntax_issues(&node.children[i], structural_ranges, structural_missing_keywords, issues);
        assert(issue_views(issues@) =~= middle + issues_upto(node.children@, i + 1, ranges, keywords));
        i = i + 1;
    }
    proof {
        let rest = issues_upto(node.children@, node.children@.len() as int, ranges, keywords);
        if node.missing && !covered(*node, ranges) {
            let name = display_missing(string_bytes(node.kind_name));
            if !keyword_listed(keywords, name) {
                assert(middle =~= start.push(middle.last()));
                assert(issue_views(issues@) =~= start + (seq![middle.last()] + rest));
            } else {
                assert(middle =~= start);
            }
        } else {
            assert(middle =~= start);
        }
    }
}

/// A diagnostic of a document.
pub struct Diagnostic {
    pub range: TextRange,
    pub code: String,
    pub message: String,
}

pub struct DiagnosticView {
    pub range: TextRange,
    pub code: Seq<char>,
    pub message: Seq<u8>,
}

impl View for Diagnostic {
    type V = DiagnosticView;

    open spec fn view(&self) -> DiagnosticView {
        DiagnosticView { range: self.range, code: self.code@, message: string_bytes(self.message) }
    }
}

pub open spec fn diagnostic_views(s: Seq<Diagnostic>) -> Seq<DiagnosticView> {
    s.map_values(|d: Diagnostic| d@)
}

/// The diagnostic of a structural issue.
pub open spec fn structural_diagnostic(starts: Seq<usize>, b: Seq<u8>, issue: StructuralIssue) -> DiagnosticView {
    DiagnosticView {
        range: span_range(starts, b, issue.range.start as int, issue.range.end as int),
        code: issue.code_text(),
        message: vstd::utf8::encode_utf8(issue.message_text()),
    }
}

pub open spec fn syntax_code_text(code: SyntaxIssueCode) -> Seq<char> {
    match code {
        SyntaxIssueCode::MissingSyntax => "missing-syntax"@,
        SyntaxIssueCode::SyntaxError => "syntax-error"@,
    }
}

/// The diagnostic of a syntax issue.
pub open spec fn syntax_diagnostic(starts: Seq<usize>, b: Seq<u8>, issue: SyntaxIssueView) -> DiagnosticView {
    DiagnosticView {
        range: span_range(starts, b, issue.range.start as int, issue.range.end as int),
        code: syntax_code_text(issue.code),
        message: issue.message,
    }
}

/// The keywords that structural issues report as missing, as UTF-8 bytes.
pub open spec fn missing_keywords(issues: Seq<StructuralIssue>) -> Seq<Seq<u8>>
    decreases issues.len(),
{
    if issues.len() == 0 {
        Seq::empty()
    } else {
        let rest = missing_keywords(issues.drop_last());
        match issues.last().kind {
            StructuralIssueKind::MissingClosingKeyword { missing, .. } => rest.push(
                vstd::utf8::encode_utf8(missing.closing_text()),
            ),
            _ => rest,
        }
    }
}

/// The diagnostics of a document: its structural issues, then either the
/// parser's failure or the syntax issues of its tree that the structural
/// issues do not cover.
pub open spec fn document_diagnostics_spec(b: Seq<u8>, starts: Seq<usize>, tree: Option<SyntaxNode>) -> Seq<
    DiagnosticView,
> {
    let issues = validate_spec(b);
    let structural = issues.map_values(|i: StructuralIssue| structural_diagnostic(starts, b, i));
    match tree {
        None => structural.push(
            DiagnosticView {
                range: span_range(starts, b, 0, 0),
                code: "parser-failure"@,
                message: "Tree-sitter could not parse the Papyrus document".spec_bytes(),
            },
        ),
        Some(root) => structural + issues_of(
            root,
            issues.map_values(|i: StructuralIssue| i.range),
            missing_keywords(issues),
        ).map_values(|v: SyntaxIssueView| syntax_diagnostic(starts, b, v)),
    }
}

fn code_text(code: SyntaxIssueCode) -> (r: &'static str)
    ensures
        r@ == syntax_code_text(code),
{
    match code {
        SyntaxIssueCode::MissingSyntax => "missing-syntax",
        SyntaxIssueCode::SyntaxError => "syntax-error",
    }
}

/// Analyzes a source and its syntax tree (`None` when the parser failed)
/// and returns the current syntax diagnostics.
pub fn document_diagnostics(source: &str, tree: Option<&SyntaxNode>) -> (r: Vec<Diagnostic>)
    ensures
        diagnostic_views(r@) == document_diagnostics_spec(
            source.spec_bytes(),
            line_starts_of(source.spec_bytes()),
            match tree {
                Some(t) => Some(*t),
                None => None,
            },
        ),
{
    let ghost b = source.spec_bytes();
    let line_index = LineIndex::new(source);
    let issues = validate(source);
    let mut ranges: Vec<ByteRange> = Vec::new();
    let mut keywords: Vec<&'static str> = Vec::new();
    let mut diagnostics: Vec<Diagnostic> = Vec::new();
    let mut i: usize = 0;
    while i < issues.len()
        invariant
            line_index@ == line_starts_of(b),
            b == source.spec_bytes(),
            0 <= i <= issues@.len(),
            ranges@ == issues@.subrange(0, i as int).map_values(|j: StructuralIssue| j.range),
            str_bytes(keywords@) == missing_keywords(issues@.subrange(0, i as int)),
            diagnostic_views(diagnostics@) == issues@.subrange(0, i as int).map_values(
                |j: StructuralIssue| structural_diagnostic(line_index@, b, j),
            ),
        decreases issues@.len() - i,
    {
        let issue = &issues[i];
        proof {
            let s = issues@.subrange(0, i + 1);
            assert(s.drop_last() =~= issues@.subrange(0, i as int));
            assert(s.last() == *issue);
        }
        ranges.push(issue.range);
        match issue.missing_keyword() {
            Some(k) => {
                keywords.push(k);
                assert(str_bytes(keywords@) =~= missing_keywords(issues@.subrange(0, i + 1)));
            },
            None => {
                assert(str_bytes(keywords@) =~= missing_keywords(issues@.subrange(0, i + 1)));
            },
        }
        let range = line_index.range(source, issue.range);
        let d = Diagnostic { range, code: crate::text::owned(issue.code()), message: issue.message() };
        assert(d@ == structural_diagnostic(line_index@, b, *issue));
        let ghost before = diagnostics@;
        diagnostics.push(d);
        assert(diagnostic_views(diagnostics@) =~= diagnostic_views(before).push(d@));
        i = i + 1;
        assert(ranges@ =~= issues@.subrange(0, i as int).map_values(|j: StructuralIssue| j.range));
        assert(diagnostic_views(diagnostics@) =~= issues@.subrange(0, i as int).map_values(
            |j: StructuralIssue| structural_diagnostic(line_index@, b, j),
        ));
    }
    assert(issues@.subrange(0, issues@.len() as int) =~= issues@);
    let ghost structural = diagnostic_views(diagnostics@);
    match tree {
        None => {
            let range = line_index.range(source, ByteRange { start: 0, end: 0 });
            diagnostics.push(
                Diagnostic {
                    range,
                    code: crate::text::owned("parser-failure"),
                    message: owned("Tree-sitter could not parse the Papyrus document"),
                },
            );
            assert(diagnostic_views(diagnostics@) =~= structural.push(diagnostic_views(diagnostics@).last()));
        },
        Some(root) => {
            let mut syntax_issues: Vec<SyntaxIssue> = Vec::new();
            collect_syntax_issues(root, &ranges, &keywords, &mut syntax_issues);
            assert(issue_views(syntax_issues@) =~= issues_of(*root, ranges@, str_bytes(keywords@)));
            let mut k: usize = 0;
            while k < syntax_issues.len()
                invariant
                    line_index@ == line_starts_of(b),
                    b == source.spec_bytes(),
                    0 <= k <= syntax_issues@.len(),
                    diagnostic_views(diagnostics@) == structural + issue_views(syntax_issues@).subrange(
                        0,
                        k as int,
                    ).map_values(|v: SyntaxIssueView| syntax_diagnostic(line_index@, b, v)),
                decreases syntax_issues@.len() - k,
            {
                let issue = &syntax_issues[k];
                let range = line_index.range(source, issue.range);
                let d = Diagnostic {
                    range,
                    code: crate::text::owned(code_text(issue.code)),
                    message: issue.message.clone(),
                };
                assert(issue_views(syntax_issues@)[k as int] == issue@);
                assert(d@ == syntax_diagnostic(line_index@, b, issue@));
                let ghost before = diagnostics@;
                diagnostics.push(d);
                assert(diagnostic_views(diagnostics@) =~= diagnostic_views(before).push(d@));
                k = k + 1;
                assert(diagnostic_views(diagnostics@) =~= structural + issue_views(syntax_issues@).subrange(
                    0,
                    k as int,
                ).map_values(|v: SyntaxIssueView| syntax_diagnostic(line_index@, b, v)));
            }
            assert(issue_views(syntax_issues@).subrange(0, syntax_issues@.len() as int) =~= issue_views(
                syntax_issues@,
            ));
        },
    }
    diagnostics
}

} // verus!
