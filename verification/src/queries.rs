//! The editor queries answered from the index: the canonical copy of a
//! declaration, the documents that navigation reads, the range under the
//! cursor, declaration signatures, hover text, references and signature help.
use vstd::prelude::*;
use vstd::string::StringSliceAdditionalSpecFns;
use crate::inference::Resolution;
use crate::line_index::{LineIndex, Position, TextRange, byte_offset_spec, line_starts_of, position_spec};
use crate::names::word_span;
use crate::navigation::{at_spec, declaration_at, occurrence_at, outcome_option, range_holds};
use crate::semantic::{Declaration, DeclarationKind, Parameter, TypeRef, opt_bytes};
use crate::text::{same_ignoring_case, string_bytes};
use crate::workspace::{DeclRef, WorkspaceIndex, bytes_less, unique_script_spec};
use crate::issue_sort::position_before;
use crate::semantic::SemanticOccurrence;
use crate::navigation::occurrence_outcome_spec;

verus! {

/// `c` is the same declaration as `d` seen in another copy of its script:
/// same kind, name (without case), container and selection range.
pub open spec fn is_twin(c: Declaration, d: Declaration) -> bool {
    &&& c.kind == d.kind
    &&& same_ignoring_case(string_bytes(c.name), string_bytes(d.name))
    &&& opt_bytes(c.container) == opt_bytes(d.container)
    &&& c.selection_range == d.selection_range
}

/// The first declaration from `i` on that is a twin of `d`; the count when none is.
pub open spec fn twin_index(ds: Seq<Declaration>, d: Declaration, i: int) -> int
    decreases ds.len() - i,
{
    if i < 0 || i >= ds.len() {
        ds.len() as int
    } else if is_twin(ds[i], d) {
        i
    } else {
        twin_index(ds, d, i + 1)
    }
}

/// The copy of a declaration that navigation reports: a script's unique
/// script declaration, a member's twin in the unique document of its owner
/// script, else the declaration itself.
pub open spec fn canonical_spec(ws: WorkspaceIndex, d: DeclRef) -> DeclRef {
    let decl = ws.decl(d);
    if decl.kind == DeclarationKind::Script {
        match unique_script_spec(ws, string_bytes(decl.name)) {
            Resolution::Resolved(c) => c,
            _ => d,
        }
    } else {
        match decl.owner_script {
            None => d,
            Some(owner) => match unique_script_spec(ws, string_bytes(owner)) {
                Resolution::Resolved(s) => {
                    let k = twin_index(ws.declarations(s.document as int), decl, 0);
                    if k < ws.declarations(s.document as int).len() {
                        DeclRef { document: s.document, declaration: k as usize }
                    } else {
                        d
                    }
                },
                _ => d,
            },
        }
    }
}

/// Whether navigation reads a document: it has no script name, its script
/// does not resolve uniquely, or it is the document its script resolves to.
pub open spec fn navigation_document_spec(ws: WorkspaceIndex, i: int) -> bool {
    match ws.documents@[i].semantic.script_name {
        None => true,
        Some(name) => match unique_script_spec(ws, string_bytes(name)) {
            Resolution::Resolved(s) => s.document == i,
            _ => true,
        },
    }
}

/// The range under the cursor: a declaration's name there, else an
/// occurrence there, else the identifier around the cursor.
pub open spec fn selection_spec(doc: crate::workspace::SemanticDocument, p: Position) -> Option<TextRange> {
    let ds = doc.declarations@;
    let os = doc.occurrences@;
    let b = string_bytes(doc.text);
    let starts = line_starts_of(b);
    let d = declaration_at(ds, p, 0);
    let o = occurrence_at(os, p, 0);
    if d < ds.len() {
        Some(ds[d].selection_range)
    } else if o < os.len() {
        Some(os[o].selection_range)
    } else if b.len() == 0 {
        None
    } else {
        match word_span(b, byte_offset_spec(starts, b, p)) {
            Some((s, e)) => Some(TextRange { start: position_spec(starts, b, s), end: position_spec(starts, b, e) }),
            None => None,
        }
    }
}

fn is_twin_exec(c: &Declaration, d: &Declaration) -> (r: bool)
    ensures
        r == is_twin(*c, *d),
{
    let containers = match (&c.container, &d.container) {
        (Some(a), Some(b)) => crate::text::bytes_equal(a.as_str().as_bytes(), b.as_str().as_bytes()),
        (None, None) => true,
        _ => false,
    };
    c.kind == d.kind && crate::semantic::strings_match(&c.name, &d.name) && containers && c.selection_range
        == d.selection_range
}

impl WorkspaceIndex {
    /// The copy of a declaration that navigation reports (`canonical_declaration`).
    pub fn canonical_declaration(&self, d: DeclRef) -> (r: DeclRef)
        requires
            self.valid_ref(d),
        ensures
            r == canonical_spec(*self, d),
            self.valid_ref(r),
    {
        let decl = &self.documents[d.document].semantic.declarations[d.declaration];
        if decl.kind == DeclarationKind::Script {
            return match self.unique_script_outcome(decl.name.as_str().as_bytes()) {
                Resolution::Resolved(c) => c,
                _ => d,
            };
        }
        let owner = match &decl.owner_script {
            None => return d,
            Some(o) => o,
        };
        let s = match self.unique_script_outcome(owner.as_str().as_bytes()) {
            Resolution::Resolved(s) => s,
            _ => return d,
        };
        let ds = &self.documents[s.document].semantic.declarations;
        let mut i: usize = 0;
        while i < ds.len()
            invariant
                s.document < self.documents@.len(),
                ds@ == self.declarations(s.document as int),
                0 <= i <= ds@.len(),
                twin_index(ds@, *decl, i as int) == twin_index(ds@, *decl, 0),
                self.valid_ref(d),
                *decl == self.decl(d),
                decl.kind != DeclarationKind::Script,
                decl.owner_script == Some(*owner),
                unique_script_spec(*self, string_bytes(*owner)) == Resolution::<DeclRef>::Resolved(s),
            decreases ds@.len() - i,
        {
            if is_twin_exec(&ds[i], decl) {
                assert(twin_index(ds@, *decl, i as int) == i);
                return DeclRef { document: s.document, declaration: i };
            }
            i = i + 1;
        }
        d
    }

    /// Whether navigation reads the document at `i` (`is_navigation_document`).
    pub fn is_navigation_document(&self, i: usize) -> (r: bool)
        requires
            i < self.documents@.len(),
        ensures
            r == navigation_document_spec(*self, i as int),
    {
        match &self.documents[i].semantic.script_name {
            None => true,
            Some(name) => match self.unique_script_outcome(name.as_str().as_bytes()) {
                Resolution::Resolved(s) => s.document == i,
                _ => true,
            },
        }
    }

    /// The range under the cursor in the document at `cur` (`selection_range_at`).
    pub fn selection_range_at(&self, cur: usize, p: Position) -> (r: Option<TextRange>)
        requires
            cur < self.documents@.len(),
        ensures
            r == selection_spec(self.documents@[cur as int].semantic, p),
    {
        let doc = &self.documents[cur].semantic;
        let d = crate::navigation::find_declaration_at(&doc.declarations, p);
        if d < doc.declarations.len() {
            return Some(doc.declarations[d].selection_range);
        }
        let o = crate::navigation::find_occurrence_at(&doc.occurrences, p);
        if o < doc.occurrences.len() {
            return Some(doc.occurrences[o].selection_range);
        }
        let text = doc.text.as_str();
        if text.as_bytes().len() == 0 {
            return None;
        }
        let index = LineIndex::new(text);
        let offset = index.byte_offset(text, p);
        match crate::names::word_byte_range(text, offset) {
            Some(range) => Some(index.range(text, range)),
            None => None,
        }
    }
}

/// A type as written: its name, then `[]` for an array.
pub open spec fn display_spec(t: TypeRef) -> Seq<char> {
    t.name@ + if t.array {
        "[]"@
    } else {
        Seq::<char>::empty()
    }
}

/// A parameter as a signature shows it: its type, a space, its name.
pub open spec fn parameter_label(p: Parameter) -> Seq<char> {
    display_spec(p.ty) + " "@ + p.name@
}

/// The labels of the first `k` parameters, joined by `, `.
pub open spec fn parameters_text(ps: Seq<Parameter>, k: int) -> Seq<char>
    decreases k,
{
    if k <= 0 {
        Seq::empty()
    } else if k == 1 {
        parameter_label(ps[0])
    } else {
        parameters_text(ps, k - 1) + ", "@ + parameter_label(ps[k - 1])
    }
}

/// The signature of a declaration: a function or event as its return type
/// (if any), name and parameter list; anything else as its type (if any)
/// and name.
pub open spec fn signature_spec(d: Declaration) -> Seq<char> {
    if d.kind == DeclarationKind::Function || d.kind == DeclarationKind::Event {
        let prefix = match d.ty {
            Some(t) => display_spec(t),
            None => Seq::empty(),
        };
        prefix + (if prefix.len() == 0 {
            Seq::empty()
        } else {
            " "@
        }) + d.name@ + "("@ + parameters_text(d.parameters@, d.parameters@.len() as int) + ")"@
    } else {
        match d.ty {
            Some(t) => display_spec(t) + " "@ + d.name@,
            None => d.name@,
        }
    }
}

/// The signature of a function or an event is its name followed by its
/// parameter list in parentheses (the labels joined by `, `), after the
/// return type when there is one; events and functions are shown alike, so
/// changing the kind between the two does not change the signature.
pub proof fn law_callable_signatures_list_parameters(d: Declaration)
    requires
        d.kind == DeclarationKind::Function || d.kind == DeclarationKind::Event,
    ensures
        signature_spec(d) == signature_spec(Declaration { kind: DeclarationKind::Function, ..d }),
        signature_spec(d) == signature_spec(Declaration { kind: DeclarationKind::Event, ..d }),
        signature_spec(d).last() == ')',
        ({
            let s = signature_spec(d);
            let tail = d.name@ + "("@ + parameters_text(d.parameters@, d.parameters@.len() as int) + ")"@;
            s.len() >= tail.len() && s.subrange(s.len() - tail.len(), s.len() as int) == tail
        }),
{
    reveal_strlit(")");
    let prefix = match d.ty {
        Some(t) => display_spec(t),
        None => Seq::empty(),
    };
    let pre = prefix + (if prefix.len() == 0 {
        Seq::<char>::empty()
    } else {
        " "@
    });
    let s = signature_spec(d);
    let tail = d.name@ + "("@ + parameters_text(d.parameters@, d.parameters@.len() as int) + ")"@;
    assert(s =~= pre + tail);
    assert(s.subrange(s.len() - tail.len(), s.len() as int) =~= tail);
}

/// The label of a parameter.
pub fn parameter_label_text(p: &Parameter) -> (r: String)
    ensures
        r@ == parameter_label(*p),
{
    let mut text = p.ty.display();
    text.append(" ");
    text.append(p.name.as_str());
    text
}

impl Declaration {
    /// The signature shown for a declaration (`signature`).
    pub fn signature(&self) -> (r: String)
        ensures
            r@ == signature_spec(*self),
    {
        if self.kind == DeclarationKind::Function || self.kind == DeclarationKind::Event {
            let mut text = match &self.ty {
                Some(t) => t.display(),
                None => String::new(),
            };
            if !text.as_str().is_empty() {
                text.append(" ");
            }
            text.append(self.name.as_str());
            text.append("(");
            let ps = &self.parameters;
            let mut k: usize = 0;
            while k < ps.len()
                invariant
                    0 <= k <= ps@.len(),
                    ps@ == self.parameters@,
                    text@ == (match self.ty {
                        Some(t) => display_spec(t),
                        None => Seq::empty(),
                    }) + (if (match self.ty {
                        Some(t) => display_spec(t),
                        None => Seq::<char>::empty(),
                    }).len() == 0 {
                        Seq::empty()
                    } else {
                        " "@
                    }) + self.name@ + "("@ + parameters_text(ps@, k as int),
                decreases ps@.len() - k,
            {
                if k > 0 {
                    text.append(", ");
                }
                let label = parameter_label_text(&ps[k]);
                text.append(label.as_str());
                k = k + 1;
            }
            text.append(")");
            text
        } else {
            match &self.ty {
                Some(t) => {
                    let mut text = t.display();
                    text.append(" ");
                    text.append(self.name.as_str());
                    text
                },
                None => self.name.clone(),
            }
        }
    }
}

/// The text of a hover: the signature in a Papyrus code block, then the
/// owner script, the documentation and the source document, each in a
/// paragraph of its own when there is one.
pub open spec fn hover_value_spec(ws: WorkspaceIndex, d: DeclRef) -> Seq<char> {
    let decl = ws.decl(d);
    "```papyrus\n"@ + signature_spec(decl) + "\n```"@ + (match decl.owner_script {
        Some(o) => "\n\nDeclared by `"@ + o@ + "`."@,
        None => Seq::empty(),
    }) + (match decl.documentation {
        Some(t) => "\n\n"@ + t@,
        None => Seq::empty(),
    }) + "\n\nSource: `"@ + ws.documents@[d.document as int].semantic.uri@ + "`"@
}

/// A hover: its Markdown text and the range it covers.
pub struct HoverText {
    pub value: String,
    pub range: Option<TextRange>,
}

/// The call at `offset` among the first `k`: the first of the narrowest
/// argument lists holding it; -1 when none does.
pub open spec fn narrowest_call(calls: Seq<crate::semantic::SemanticCallSite>, offset: int, k: int) -> int
    decreases k,
{
    if k <= 0 || k > calls.len() {
        -1
    } else {
        let prev = narrowest_call(calls, offset, k - 1);
        if calls[k - 1].spec_contains_offset(offset) && (prev < 0 || crate::navigation::span_of(calls[k - 1])
            < crate::navigation::span_of(calls[prev])) {
            k - 1
        } else {
            prev
        }
    }
}

/// Signature help picks the innermost call around the cursor: the call
/// chosen among the first `k` holds the offset, no call holding the offset
/// has a strictly smaller argument span, and any earlier one holding it has
/// a strictly larger span (ties go to the first); none is chosen exactly
/// when no call holds the offset.
pub proof fn law_narrowest_call_holds_the_cursor(calls: Seq<crate::semantic::SemanticCallSite>, offset: int, k: int)
    requires
        0 <= k <= calls.len(),
    ensures
        ({
            let r = narrowest_call(calls, offset, k);
            &&& -1 <= r < k
            &&& r < 0 <==> forall|j: int| 0 <= j < k ==> !(#[trigger] calls[j]).spec_contains_offset(offset)
            &&& r >= 0 ==> calls[r].spec_contains_offset(offset)
            &&& r >= 0 ==> forall|j: int| 0 <= j < k && (#[trigger] calls[j]).spec_contains_offset(offset)
                ==> crate::navigation::span_of(calls[r]) <= crate::navigation::span_of(calls[j])
            &&& r >= 0 ==> forall|j: int| 0 <= j < r && (#[trigger] calls[j]).spec_contains_offset(offset)
                ==> crate::navigation::span_of(calls[r]) < crate::navigation::span_of(calls[j])
        }),
    decreases k,
{
    if k > 0 {
        law_narrowest_call_holds_the_cursor(calls, offset, k - 1);
    }
}

/// The first parameter from `i` on named `name` (without case); the count when none is.
pub open spec fn parameter_named(ps: Seq<Parameter>, name: Seq<u8>, i: int) -> int
    decreases ps.len() - i,
{
    if i < 0 || i >= ps.len() {
        ps.len() as int
    } else if same_ignoring_case(string_bytes(ps[i].name), name) {
        i
    } else {
        parameter_named(ps, name, i + 1)
    }
}

/// The parameter that the argument at `offset` of a call fills: the one a
/// named argument names, else the one at the argument's position.
pub open spec fn active_parameter_spec(call: crate::semantic::SemanticCallSite, ps: Seq<Parameter>, offset: int) -> Option<
    int,
> {
    match call.spec_argument_at(offset) {
        None => None,
        Some((index, name)) => {
            let i = match name {
                Some(n) => parameter_named(ps, string_bytes(n), 0),
                None => index,
            };
            if 0 <= i < ps.len() && i <= u32::MAX {
                Some(i)
            } else {
                None
            }
        },
    }
}

/// What signature help shows at a position: the function or event that
/// the narrowest call around the cursor calls, and the active parameter.
pub open spec fn signature_help_spec(ws: WorkspaceIndex, cur: int, p: Position) -> Option<(DeclRef, Option<int>)> {
    let doc = ws.documents@[cur].semantic;
    let b = string_bytes(doc.text);
    let offset = byte_offset_spec(line_starts_of(b), b, p);
    let calls = doc.call_sites@;
    let k = narrowest_call(calls, offset, calls.len() as int);
    if b.len() == 0 || k < 0 {
        None
    } else {
        match outcome_option(at_spec(ws, cur, calls[k].callee_range.start)) {
            None => None,
            Some(d) => if ws.decl(d).kind == DeclarationKind::Function || ws.decl(d).kind == DeclarationKind::Event {
                Some((d, active_parameter_spec(calls[k], ws.decl(d).parameters@, offset)))
            } else {
                None
            },
        }
    }
}

/// Signature help: the callee's signature, documentation and parameter
/// labels, and the parameter the cursor is on.
pub struct SignatureHelpText {
    pub label: String,
    pub documentation: Option<String>,
    pub parameters: Vec<String>,
    pub active_parameter: Option<u32>,
}

pub open spec fn labels_of(v: Seq<String>) -> Seq<Seq<char>> {
    v.map_values(|s: String| s@)
}

fn narrowest_call_at(calls: &Vec<crate::semantic::SemanticCallSite>, offset: usize) -> (r: Option<usize>)
    ensures
        match r {
            Some(k) => k as int == narrowest_call(calls@, offset as int, calls@.len() as int) && k < calls@.len(),
            None => narrowest_call(calls@, offset as int, calls@.len() as int) < 0,
        },
{
    let mut best: Option<usize> = None;
    let mut k: usize = 0;
    while k < calls.len()
        invariant
            0 <= k <= calls@.len(),
            match best {
                Some(b) => b as int == narrowest_call(calls@, offset as int, k as int) && b < k,
                None => narrowest_call(calls@, offset as int, k as int) < 0,
            },
        decreases calls@.len() - k,
    {
        if calls[k].contains_offset(offset) {
            match best {
                Some(b) => {
                    if calls[k].argument_span() < calls[b].argument_span() {
                        best = Some(k);
                    }
                },
                None => {
                    best = Some(k);
                },
            }
        }
        k = k + 1;
    }
    best
}

fn parameter_position(ps: &Vec<Parameter>, name: &String) -> (r: usize)
    ensures
        r as int == parameter_named(ps@, string_bytes(*name), 0),
{
    let mut i: usize = 0;
    while i < ps.len()
        invariant
            0 <= i <= ps@.len(),
            parameter_named(ps@, string_bytes(*name), i as int) == parameter_named(ps@, string_bytes(*name), 0),
        decreases ps@.len() - i,
    {
        if crate::semantic::strings_match(&ps[i].name, name) {
            return i;
        }
        i = i + 1;
    }
    i
}

impl WorkspaceIndex {
    /// The hover text of a declaration.
    #[verifier::spinoff_prover]
    fn hover_value(&self, d: DeclRef) -> (r: String)
        requires
            self.valid_ref(d),
        ensures
            r@ == hover_value_spec(*self, d),
    {
        let decl = &self.documents[d.document].semantic.declarations[d.declaration];
        let mut value = String::from_str("```papyrus\n");
        let signature = decl.signature();
        value.append(signature.as_str());
        value.append("\n```");
        if let Some(owner) = &decl.owner_script {
            value.append("\n\nDeclared by `");
            value.append(owner.as_str());
            value.append("`.");
        }
        if let Some(documentation) = &decl.documentation {
            value.append("\n\n");
            value.append(documentation.as_str());
        }
        value.append("\n\nSource: `");
        value.append(self.documents[d.document].semantic.uri.as_str());
        value.append("`");
        value
    }

    /// The hover at a position of the document at `cur` (`hover`).
    pub fn hover(&self, cur: usize, p: Position) -> (r: Option<HoverText>)
        requires
            cur < self.documents@.len(),
        ensures
            match outcome_option(at_spec(*self, cur as int, p)) {
                None => r is None,
                Some(d) => r matches Some(h) && h.value@ == hover_value_spec(*self, d) && h.range == selection_spec(
                    self.documents@[cur as int].semantic,
                    p,
                ),
            },
    {
        let range = self.selection_range_at(cur, p);
        let d = match self.resolve_at_outcome(cur, p) {
            Resolution::Resolved(d) => d,
            _ => return None,
        };
        let value = self.hover_value(d);
        Some(HoverText { value, range })
    }

    /// Signature help at a position of the document at `cur` (`signature_help`).
    #[verifier::spinoff_prover]
    #[verifier::rlimit(40)]
    pub fn signature_help(&self, cur: usize, p: Position) -> (r: Option<SignatureHelpText>)
        requires
            cur < self.documents@.len(),
        ensures
            match signature_help_spec(*self, cur as int, p) {
                None => r is None,
                Some((d, active)) => r matches Some(h) && {
                    let decl = self.decl(d);
                    &&& h.label@ == signature_spec(decl)
                    &&& h.documentation == decl.documentation
                    &&& labels_of(h.parameters@) == decl.parameters@.map_values(|q: Parameter| parameter_label(q))
                    &&& match active {
                        Some(i) => h.active_parameter == Some(i as u32),
                        None => h.active_parameter is None,
                    }
                },
            },
    {
        let doc = &self.documents[cur].semantic;
        let text = doc.text.as_str();
        if text.as_bytes().len() == 0 {
            return None;
        }
        let offset = LineIndex::new(text).byte_offset(text, p);
        let k = match narrowest_call_at(&doc.call_sites, offset) {
            Some(k) => k,
            None => return None,
        };
        let call = &doc.call_sites[k];
        let d = match self.resolve_at_outcome(cur, call.callee_range.start) {
            Resolution::Resolved(d) => d,
            _ => return None,
        };
        let decl = &self.documents[d.document].semantic.declarations[d.declaration];
        if !(decl.kind == DeclarationKind::Function || decl.kind == DeclarationKind::Event) {
            return None;
        }
        let ps = &decl.parameters;
        let active = match call.argument_at(offset) {
            None => None,
            Some((index, name)) => {
                let i = match &name {
                    Some(n) => parameter_position(ps, n),
                    None => index,
                };
                if i < ps.len() && i <= 0xffff_ffffusize {
                    Some(i as u32)
                } else {
                    None
                }
            },
        };
        let mut parameters: Vec<String> = Vec::new();
        let mut j: usize = 0;
        while j < ps.len()
            invariant
                0 <= j <= ps@.len(),
                labels_of(parameters@) == ps@.subrange(0, j as int).map_values(|q: Parameter| parameter_label(q)),
            decreases ps@.len() - j,
        {
            let label = parameter_label_text(&ps[j]);
            let ghost before = parameters@;
            assert(labels_of(before).len() == before.len());
            assert(before.len() == j);
            parameters.push(label);
            proof {
                let want = ps@.subrange(0, j + 1).map_values(|q: Parameter| parameter_label(q));
                assert forall|t: int| 0 <= t < j + 1 implies #[trigger] labels_of(parameters@)[t] == want[t] by {
                    if t < j {
                        assert(parameters@[t] == before[t]);
                        assert(labels_of(before)[t] == before[t]@);
                    }
                }
                assert(labels_of(parameters@) =~= want);
            }
            j = j + 1;
        }
        assert(ps@.subrange(0, ps@.len() as int) =~= ps@);
        Some(SignatureHelpText { label: decl.signature(), documentation: decl.documentation.clone(), parameters, active_parameter: active })
    }
}

/// A place in a document: its URI and a range.
#[derive(Debug)]
pub struct Location {
    pub uri: String,
    pub range: TextRange,
}

pub struct LocationView {
    pub uri: Seq<u8>,
    pub range: TextRange,
}

impl View for Location {
    type V = LocationView;

    open spec fn view(&self) -> LocationView {
        LocationView { uri: string_bytes(self.uri), range: self.range }
    }
}

pub open spec fn location_views(s: Seq<Location>) -> Seq<LocationView> {
    s.map_values(|l: Location| l@)
}

/// The order of locations: by URI, then start, then end.
pub open spec fn location_before(a: LocationView, b: LocationView) -> bool {
    if a.uri != b.uri {
        bytes_less(a.uri, b.uri)
    } else if a.range.start != b.range.start {
        position_before(a.range.start, b.range.start)
    } else {
        position_before(a.range.end, b.range.end)
    }
}

/// Locations in strictly increasing order, so each at most once.
pub open spec fn sorted_locations(s: Seq<LocationView>) -> bool {
    forall|i: int, j: int| 0 <= i < j < s.len() ==> location_before(#[trigger] s[i], #[trigger] s[j])
}

/// `out` holds the same locations as `input`, each once, in order.
pub open spec fn sorted_set_of(out: Seq<LocationView>, input: Seq<LocationView>) -> bool {
    &&& sorted_locations(out)
    &&& forall|x: LocationView| #[trigger] out.contains(x) <==> input.contains(x)
}

pub proof fn lemma_location_before_irreflexive(a: LocationView)
    ensures
        !location_before(a, a),
{
    crate::issue_sort::lemma_bytes_less_irreflexive(a.uri);
}

pub proof fn lemma_location_before_transitive(a: LocationView, b: LocationView, c: LocationView)
    requires
        location_before(a, b),
        location_before(b, c),
    ensures
        location_before(a, c),
{
    if a.uri != b.uri && b.uri != c.uri {
        crate::issue_sort::lemma_bytes_less_transitive(a.uri, b.uri, c.uri);
        if a.uri == c.uri {
            crate::issue_sort::lemma_bytes_less_transitive(b.uri, c.uri, b.uri);
            crate::issue_sort::lemma_bytes_less_irreflexive(b.uri);
        }
    }
}

pub proof fn lemma_location_before_total(a: LocationView, b: LocationView)
    requires
        a != b,
    ensures
        location_before(a, b) || location_before(b, a),
{
    if a.uri != b.uri {
        crate::issue_sort::lemma_bytes_less_total(a.uri, b.uri);
    } else if a.range.start == b.range.start {
        assert(a.range.end != b.range.end);
    }
}

pub proof fn lemma_contains_concat<A>(a: Seq<A>, b: Seq<A>, x: A)
    ensures
        (a + b).contains(x) <==> (a.contains(x) || b.contains(x)),
{
    if a.contains(x) {
        let i = choose|i: int| 0 <= i < a.len() && a[i] == x;
        assert((a + b)[i] == x);
    }
    if b.contains(x) {
        let i = choose|i: int| 0 <= i < b.len() && b[i] == x;
        assert((a + b)[a.len() + i] == x);
    }
    if (a + b).contains(x) {
        let i = choose|i: int| 0 <= i < (a + b).len() && (a + b)[i] == x;
        if i < a.len() {
            assert(a[i] == x);
        } else {
            assert(b[i - a.len()] == x);
        }
    }
}

fn compare_locations(a: &Location, b: &Location) -> (r: i8)
    ensures
        (r < 0) == location_before(a@, b@),
        (r == 0) == (a@ == b@),
        (r > 0) == location_before(b@, a@),
{
    proof {
        lemma_location_before_irreflexive(a@);
        if a@ != b@ {
            lemma_location_before_total(a@, b@);
            if location_before(a@, b@) && location_before(b@, a@) {
                lemma_location_before_transitive(a@, b@, a@);
            }
        }
    }
    let u = crate::issue_sort::less_slices(a.uri.as_str().as_bytes(), b.uri.as_str().as_bytes());
    if u != 0 {
        return u;
    }
    if a.range.start != b.range.start {
        return if crate::issue_sort::position_before_exec(a.range.start, b.range.start) {
            -1
        } else {
            1
        };
    }
    if a.range.end != b.range.end {
        return if crate::issue_sort::position_before_exec(a.range.end, b.range.end) {
            -1
        } else {
            1
        };
    }
    0
}

/// Adds a location to a sorted list of distinct locations, unless it is there.
fn insert_location(out: &mut Vec<Location>, loc: Location)
    requires
        sorted_locations(location_views(old(out)@)),
    ensures
        sorted_locations(location_views(final(out)@)),
        forall|x: LocationView| #[trigger] location_views(final(out)@).contains(x) <==> (location_views(
            old(out)@,
        ).contains(x) || x == loc@),
{
    let ghost before = location_views(out@);
    let mut i: usize = 0;
    while i < out.len() && compare_locations(&out[i], &loc) < 0
        invariant
            0 <= i <= out@.len(),
            location_views(out@) == before,
            sorted_locations(before),
            forall|t: int| 0 <= t < i ==> location_before(#[trigger] before[t], loc@),
        decreases out@.len() - i,
    {
        i = i + 1;
    }
    if i < out.len() && compare_locations(&out[i], &loc) == 0 {
        assert(before[i as int] == loc@);
        return;
    }
    proof {
        if i < before.len() {
            assert(before[i as int] == out@[i as int]@);
            assert(!location_before(before[i as int], loc@));
            assert(before[i as int] != loc@);
            lemma_location_before_total(before[i as int], loc@);
        }
    }
    let ghost lv = loc@;
    out.insert(i, loc);
    proof {
        let after = location_views(out@);
        assert(after =~= before.insert(i as int, lv));
        assert forall|a: int, b: int| 0 <= a < b < after.len() implies location_before(
            #[trigger] after[a],
            #[trigger] after[b],
        ) by {
            if b < i {
            } else if a < i && b == i {
            } else if a < i {
                assert(after[b] == before[b - 1]);
                if i < before.len() {
                    if b - 1 > i {
                        lemma_location_before_transitive(lv, before[i as int], before[b - 1]);
                    }
                }
                lemma_location_before_transitive(before[a], lv, after[b]);
            } else if a == i {
                assert(after[b] == before[b - 1]);
                if b - 1 > i {
                    lemma_location_before_transitive(lv, before[i as int], before[b - 1]);
                }
            } else {
                assert(after[a] == before[a - 1]);
                assert(after[b] == before[b - 1]);
            }
        }
        assert forall|x: LocationView| #[trigger] after.contains(x) <==> (before.contains(x) || x == lv) by {
            if after.contains(x) {
                let t = choose|t: int| 0 <= t < after.len() && after[t] == x;
                if t < i {
                    assert(before[t] == x);
                } else if t > i {
                    assert(before[t - 1] == x);
                }
            }
            if before.contains(x) {
                let t = choose|t: int| 0 <= t < before.len() && before[t] == x;
                if t < i {
                    assert(after[t] == x);
                } else {
                    assert(after[t + 1] == x);
                }
            }
            if x == lv {
                assert(after[i as int] == x);
            }
        }
    }
}

/// An occurrence of document `j` that refers to `target`: it spells the
/// target's name (without case) and resolves to a declaration whose
/// canonical copy is the target.
pub open spec fn is_reference(ws: WorkspaceIndex, target: DeclRef, j: int, o: SemanticOccurrence) -> bool {
    &&& same_ignoring_case(string_bytes(o.name), string_bytes(ws.decl(target).name))
    &&& outcome_option(occurrence_outcome_spec(ws, j, o)) matches Some(r) && canonical_spec(ws, r) == target
}

/// The locations of the references to `target` among the first `k`
/// occurrences of document `j`.
pub open spec fn document_references(ws: WorkspaceIndex, target: DeclRef, j: int, k: int) -> Seq<LocationView>
    decreases k,
{
    let os = ws.documents@[j].semantic.occurrences@;
    if k <= 0 || k > os.len() {
        Seq::empty()
    } else {
        document_references(ws, target, j, k - 1) + if is_reference(ws, target, j, os[k - 1]) {
            seq![LocationView { uri: string_bytes(ws.documents@[j].semantic.uri), range: os[k - 1].selection_range }]
        } else {
            Seq::empty()
        }
    }
}

/// The locations of the references to `target` in the first `n` documents
/// that navigation reads.
pub open spec fn workspace_references(ws: WorkspaceIndex, target: DeclRef, n: int) -> Seq<LocationView>
    decreases n,
{
    if n <= 0 || n > ws.documents@.len() {
        Seq::empty()
    } else {
        workspace_references(ws, target, n - 1) + if navigation_document_spec(ws, n - 1) {
            document_references(ws, target, n - 1, ws.documents@[n - 1].semantic.occurrences@.len() as int)
        } else {
            Seq::empty()
        }
    }
}

/// The location of a declaration's name.
pub open spec fn declaration_location_spec(ws: WorkspaceIndex, d: DeclRef) -> LocationView {
    LocationView { uri: string_bytes(ws.documents@[d.document as int].semantic.uri), range: ws.decl(d).selection_range }
}

/// The places that refer to what a position denotes, taken canonically:
/// its declaration when asked for, and every referring occurrence in the
/// documents that navigation reads.
pub open spec fn references_spec(ws: WorkspaceIndex, cur: int, p: Position, include_declaration: bool) -> Seq<
    LocationView,
> {
    match outcome_option(at_spec(ws, cur, p)) {
        None => Seq::empty(),
        Some(d) => {
            let t = canonical_spec(ws, d);
            (if include_declaration {
                seq![declaration_location_spec(ws, t)]
            } else {
                Seq::empty()
            }) + workspace_references(ws, t, ws.documents@.len() as int)
        },
    }
}

/// Two strictly ordered sequences of the same locations are equal.
pub proof fn lemma_sorted_set_unique(a: Seq<LocationView>, b: Seq<LocationView>)
    requires
        sorted_locations(a),
        sorted_locations(b),
        forall|x: LocationView| #[trigger] a.contains(x) <==> b.contains(x),
    ensures
        a == b,
    decreases a.len() + b.len(),
{
    if a.len() == 0 {
        if b.len() > 0 {
            assert(b.contains(b[0]));
            assert(a.contains(b[0]));
        }
        assert(a =~= b);
    } else if b.len() == 0 {
        assert(a.contains(a[0]));
        assert(b.contains(a[0]));
    } else {
        assert(a.contains(a[0]));
        assert(b.contains(a[0]));
        assert(b.contains(b[0]));
        assert(a.contains(b[0]));
        let j = choose|j: int| 0 <= j < b.len() && b[j] == a[0];
        let k = choose|k: int| 0 <= k < a.len() && a[k] == b[0];
        if j > 0 && k > 0 {
            assert(location_before(b[0], b[j]));
            assert(location_before(a[0], a[k]));
            lemma_location_before_transitive(a[0], b[0], a[0]);
            lemma_location_before_irreflexive(a[0]);
        } else if j > 0 {
            assert(k == 0);
            assert(location_before(b[0], b[j]));
            lemma_location_before_irreflexive(a[0]);
        } else if k > 0 {
            assert(location_before(a[0], a[k]));
            lemma_location_before_irreflexive(a[0]);
        }
        assert(a[0] == b[0]);
        let a2 = a.drop_first();
        let b2 = b.drop_first();
        assert forall|x: LocationView| #[trigger] a2.contains(x) <==> b2.contains(x) by {
            if a2.contains(x) {
                let i = choose|i: int| 0 <= i < a2.len() && a2[i] == x;
                assert(a[i + 1] == x);
                assert(location_before(a[0], x));
                assert(a.contains(x));
                assert(b.contains(x));
                let m = choose|m: int| 0 <= m < b.len() && b[m] == x;
                if m == 0 {
                    lemma_location_before_irreflexive(x);
                }
                assert(b2[m - 1] == x);
            }
            if b2.contains(x) {
                let i = choose|i: int| 0 <= i < b2.len() && b2[i] == x;
                assert(b[i + 1] == x);
                assert(location_before(b[0], x));
                assert(b.contains(x));
                assert(a.contains(x));
                let m = choose|m: int| 0 <= m < a.len() && a[m] == x;
                if m == 0 {
                    lemma_location_before_irreflexive(x);
                }
                assert(a2[m - 1] == x);
            }
        }
        lemma_sorted_set_unique(a2, b2);
        assert(a =~= seq![a[0]] + a2);
        assert(b =~= seq![b[0]] + b2);
    }
}

/// The declaration location that references add when asked to: that of
/// the canonical declaration of what the position denotes, if anything.
pub open spec fn referenced_declaration(ws: WorkspaceIndex, cur: int, p: Position) -> Option<LocationView> {
    match outcome_option(at_spec(ws, cur, p)) {
        None => None,
        Some(d) => Some(declaration_location_spec(ws, canonical_spec(ws, d))),
    }
}

/// Asking for the declaration too adds exactly its location: as sets, the
/// references with the declaration are those without it plus the
/// declaration's location, when the position denotes a declaration.
/// `with` and `without` are what `references` returns for the two choices.
pub proof fn law_references_with_declaration(
    ws: WorkspaceIndex,
    cur: int,
    p: Position,
    with: Seq<LocationView>,
    without: Seq<LocationView>,
)
    requires
        sorted_set_of(with, references_spec(ws, cur, p, true)),
        sorted_set_of(without, references_spec(ws, cur, p, false)),
    ensures
        forall|x: LocationView| #[trigger] with.contains(x) <==> (without.contains(x)
            || referenced_declaration(ws, cur, p) == Some(x)),
        referenced_declaration(ws, cur, p) is None ==> with == without,
{
    match outcome_option(at_spec(ws, cur, p)) {
        None => {
            assert(references_spec(ws, cur, p, true) =~= Seq::<LocationView>::empty());
            assert(references_spec(ws, cur, p, false) =~= Seq::<LocationView>::empty());
            lemma_sorted_set_unique(with, without);
        },
        Some(d) => {
            let t = canonical_spec(ws, d);
            let w = workspace_references(ws, t, ws.documents@.len() as int);
            let decl = declaration_location_spec(ws, t);
            assert(references_spec(ws, cur, p, true) == seq![decl] + w);
            assert(references_spec(ws, cur, p, false) =~= w);
            assert forall|x: LocationView| #[trigger] with.contains(x) <==> (without.contains(x) || decl == x) by {
                let s = seq![decl] + w;
                if s.contains(x) {
                    let i = choose|i: int| 0 <= i < s.len() && s[i] == x;
                    if i > 0 {
                        assert(w[i - 1] == x);
                    }
                }
                if w.contains(x) {
                    let i = choose|i: int| 0 <= i < w.len() && w[i] == x;
                    assert(s[i + 1] == x);
                }
                if decl == x {
                    assert(s[0] == x);
                }
            }
        },
    }
}

/// The references as one sequence: sorted by URI and range, each once.
pub open spec fn sorted_references(ws: WorkspaceIndex, cur: int, p: Position, include_declaration: bool) -> Seq<
    LocationView,
> {
    choose|s: Seq<LocationView>| sorted_set_of(s, references_spec(ws, cur, p, include_declaration))
}

impl WorkspaceIndex {
    /// The location of a declaration's name (`declaration_location`).
    pub fn declaration_location(&self, d: DeclRef) -> (r: Location)
        requires
            self.valid_ref(d),
        ensures
            r@ == declaration_location_spec(*self, d),
    {
        Location {
            uri: self.documents[d.document].semantic.uri.clone(),
            range: self.documents[d.document].semantic.declarations[d.declaration].selection_range,
        }
    }

    /// The references to what a position of the document at `cur` denotes,
    /// sorted by URI and range, each once (`references`).
    pub fn references(&self, cur: usize, p: Position, include_declaration: bool) -> (r: Vec<Location>)
        requires
            cur < self.documents@.len(),
        ensures
            sorted_set_of(location_views(r@), references_spec(*self, cur as int, p, include_declaration)),
            location_views(r@) == sorted_references(*self, cur as int, p, include_declaration),
    {
        let r = self.reference_list(cur, p, include_declaration);
        proof {
            let s = sorted_references(*self, cur as int, p, include_declaration);
            assert(sorted_set_of(location_views(r@), references_spec(*self, cur as int, p, include_declaration)));
            lemma_sorted_set_unique(location_views(r@), s);
        }
        r
    }

    #[verifier::spinoff_prover]
    #[verifier::rlimit(40)]
    fn reference_list(&self, cur: usize, p: Position, include_declaration: bool) -> (r: Vec<Location>)
        requires
            cur < self.documents@.len(),
        ensures
            sorted_set_of(location_views(r@), references_spec(*self, cur as int, p, include_declaration)),
    {
        let mut out: Vec<Location> = Vec::new();
        let d = match self.resolve_at_outcome(cur, p) {
            Resolution::Resolved(d) => d,
            _ => {
                assert(location_views(out@) =~= Seq::<LocationView>::empty());
                return out;
            },
        };
        let t = self.canonical_declaration(d);
        let ghost first: Seq<LocationView> = if include_declaration {
            seq![declaration_location_spec(*self, t)]
        } else {
            Seq::empty()
        };
        if include_declaration {
            insert_location(&mut out, self.declaration_location(t));
        }
        assert forall|x: LocationView| #[trigger] location_views(out@).contains(x) <==> first.contains(x) by {
            if include_declaration {
                if location_views(out@).contains(x) {
                    assert(x == declaration_location_spec(*self, t));
                    assert(first[0] == x);
                }
                if first.contains(x) {
                    assert(first[0] == x);
                }
            } else {
                assert(location_views(out@) =~= Seq::<LocationView>::empty());
            }
        }
        let tname = self.documents[t.document].semantic.declarations[t.declaration].name.as_str();
        let n = self.documents.len();
        let mut j: usize = 0;
        while j < n
            invariant
                n == self.documents@.len(),
                0 <= j <= n,
                self.valid_ref(t),
                tname@ == self.decl(t).name@,
                sorted_locations(location_views(out@)),
                forall|x: LocationView| #[trigger] location_views(out@).contains(x) <==> (first
                    + workspace_references(*self, t, j as int)).contains(x),
            decreases n - j,
        {
            let ghost mid = first + workspace_references(*self, t, j as int);
            if self.is_navigation_document(j) {
                let os = &self.documents[j].semantic.occurrences;
                let mut k: usize = 0;
                while k < os.len()
                    invariant
                        n == self.documents@.len(),
                        j < n,
                        os@ == self.documents@[j as int].semantic.occurrences@,
                        0 <= k <= os@.len(),
                        self.valid_ref(t),
                        tname@ == self.decl(t).name@,
                        sorted_locations(location_views(out@)),
                        forall|x: LocationView| #[trigger] location_views(out@).contains(x) <==> (mid
                            + document_references(*self, t, j as int, k as int)).contains(x),
                    decreases os@.len() - k,
                {
                    let o = &os[k];
                    let ghost prev = mid + document_references(*self, t, j as int, k as int);
                    let mut referring = false;
                    if crate::text::str_equal_ignoring_case(o.name.as_str(), tname) {
                        if let Resolution::Resolved(r) = self.resolve_occurrence_outcome(j, o) {
                            if self.canonical_declaration(r) == t {
                                referring = true;
                            }
                        }
                    }
                    proof {
                        assert(string_bytes(self.decl(t).name) == tname.spec_bytes());
                    }
                    assert(referring == is_reference(*self, t, j as int, os@[k as int]));
                    if referring {
                        let loc = Location { uri: self.documents[j].semantic.uri.clone(), range: o.selection_range };
                        let ghost lv = loc@;
                        insert_location(&mut out, loc);
                        proof {
                            assert(document_references(*self, t, j as int, k + 1) =~= document_references(
                                *self,
                                t,
                                j as int,
                                k as int,
                            ) + seq![lv]);
                            assert(mid + document_references(*self, t, j as int, k + 1) =~= prev + seq![lv]);
                            assert forall|x: LocationView| #[trigger] location_views(out@).contains(x) <==> (prev
                                + seq![lv]).contains(x) by {
                                lemma_contains_concat(prev, seq![lv], x);
                                if seq![lv].contains(x) {
                                    assert(seq![lv][0] == x);
                                }
                                if x == lv {
                                    assert(seq![lv][0] == x);
                                }
                            }
                        }
                    } else {
                        assert(document_references(*self, t, j as int, k + 1) =~= document_references(
                            *self,
                            t,
                            j as int,
                            k as int,
                        ));
                    }
                    k = k + 1;
                }
                proof {
                    assert(first + workspace_references(*self, t, j + 1) =~= mid + document_references(
                        *self,
                        t,
                        j as int,
                        os@.len() as int,
                    ));
                }
            } else {
                assert(first + workspace_references(*self, t, j + 1) =~= mid);
            }
            j = j + 1;
        }
        out
    }
}

} // verus!
