//! What a position of a document, or an identifier occurrence in it,
//! denotes: the declaration under the cursor, the declaration an occurrence
//! resolves to, or what the word under the cursor names.
use vstd::prelude::*;
use vstd::string::StringSliceAdditionalSpecFns;
use crate::inference::Resolution;
use crate::line_index::{LineIndex, Position, TextRange, byte_offset_spec, line_starts_of, position_le};
use crate::names::{ByteClass, clamp, receiver_before_dot_spec, skip_back, word_span};
use crate::resolution::{ExpressionResolutionView, identifier_spec, member_spec, resolve_spec};
use crate::semantic::{DeclarationKind, SemanticExpression, SemanticOccurrence, SemanticOccurrenceKind, opt_bytes};
use crate::text::{same_ignoring_case, string_bytes};
use crate::type_system::spec_is_primitive_name;
use crate::workspace::{
    DeclFilter, DeclRef, FilterSpec, WorkspaceIndex, add_members, lemma_named_outcome_valid, named_outcome_spec,
    selected, structure_spec, unique_script_spec, visible_name_spec,
};

verus! {

/// A resolved outcome as an option.
pub open spec fn outcome_option(r: Resolution<DeclRef>) -> Option<DeclRef> {
    match r {
        Resolution::Resolved(d) => Some(d),
        _ => None,
    }
}

/// The type named `name` as a type position sees it: nothing for a
/// primitive, else a top-level struct of the document, else a script, else
/// a struct reached through a script name or an import.
pub open spec fn type_name_spec(ws: WorkspaceIndex, cur: int, name: Seq<u8>) -> Resolution<DeclRef> {
    let local = named_outcome_spec(ws, selected(ws, cur, FilterSpec::Structure(name)), name);
    if spec_is_primitive_name(name) {
        Resolution::Unsupported
    } else if !(local is Missing) {
        local
    } else {
        match unique_script_spec(ws, name) {
            Resolution::Resolved(d) => Resolution::Resolved(d),
            Resolution::Ambiguous => Resolution::Ambiguous,
            _ => structure_spec(ws, cur, name),
        }
    }
}

/// The member `member` of what a receiver expression denotes.
pub open spec fn member_expression_spec(ws: WorkspaceIndex, cur: int, receiver: SemanticExpression, member: Seq<u8>) -> Resolution<
    DeclRef,
> {
    match resolve_spec(ws, cur, receiver, 0) {
        Resolution::Resolved(rv) => member_spec(ws, cur, rv, member),
        Resolution::Ambiguous => Resolution::Ambiguous,
        _ => Resolution::Unsupported,
    }
}

/// The script of an optional script name.
pub open spec fn script_named(ws: WorkspaceIndex, name: Option<String>) -> Resolution<DeclRef> {
    match name {
        Some(n) => unique_script_spec(ws, string_bytes(n)),
        None => Resolution::Unsupported,
    }
}

/// Whether a range holds a position, its end excluded.
pub open spec fn range_holds(range: TextRange, p: Position) -> bool {
    position_le(range.start, p) && !position_le(range.end, p)
}

/// The first declaration from `i` on whose name is at `p`; the count when none is.
pub open spec fn declaration_at(ds: Seq<crate::semantic::Declaration>, p: Position, i: int) -> int
    decreases ds.len() - i,
{
    if i < 0 || i >= ds.len() {
        ds.len() as int
    } else if range_holds(ds[i].selection_range, p) {
        i
    } else {
        declaration_at(ds, p, i + 1)
    }
}

/// The first occurrence from `i` on whose name is at `p`; the count when none is.
pub open spec fn occurrence_at(os: Seq<SemanticOccurrence>, p: Position, i: int) -> int
    decreases os.len() - i,
{
    if i < 0 || i >= os.len() {
        os.len() as int
    } else if range_holds(os[i].selection_range, p) {
        i
    } else {
        occurrence_at(os, p, i + 1)
    }
}

/// Whether a call's argument list holds a named argument `name` at `offset`.
pub open spec fn labels(call: crate::semantic::SemanticCallSite, offset: int, name: Seq<u8>) -> bool {
    call.spec_contains_offset(offset) && (call.spec_argument_at(offset) matches Some((_, Some(n))) && same_ignoring_case(
        string_bytes(n),
        name,
    ))
}

pub open spec fn span_of(call: crate::semantic::SemanticCallSite) -> int {
    if call.argument_range.end >= call.argument_range.start {
        call.argument_range.end - call.argument_range.start
    } else {
        0
    }
}

/// Among the first `k` calls, the first of the narrowest that label `name`
/// at `offset`; -1 when none does.
pub open spec fn innermost_call(calls: Seq<crate::semantic::SemanticCallSite>, offset: int, name: Seq<u8>, k: int) -> int
    decreases k,
{
    if k <= 0 || k > calls.len() {
        -1
    } else {
        let prev = innermost_call(calls, offset, name, k - 1);
        if labels(calls[k - 1], offset, name) && (prev < 0 || span_of(calls[k - 1]) < span_of(calls[prev])) {
            k - 1
        } else {
            prev
        }
    }
}

/// The parameter `name` of a callee, declared in the callee's document,
/// inside it and by the same script.
pub open spec fn parameter_of(ws: WorkspaceIndex, callee: DeclRef, name: Seq<u8>, i: int) -> int
    decreases ws.declarations(callee.document as int).len() - i,
{
    let ds = ws.declarations(callee.document as int);
    if i < 0 || i >= ds.len() {
        ds.len() as int
    } else if ds[i].kind == DeclarationKind::Parameter && same_ignoring_case(string_bytes(ds[i].name), name) && (
    ds[i].container matches Some(c) && same_ignoring_case(string_bytes(c), string_bytes(ws.decl(callee).name)))
        && opt_bytes(ds[i].owner_script) == opt_bytes(ws.decl(callee).owner_script) {
        i
    } else {
        parameter_of(ws, callee, name, i + 1)
    }
}

/// What an occurrence denotes: a named argument's label the callee's
/// parameter, an import or a type the script or type it names, `Self` and
/// `Parent` their scripts, a member the member of its receiver, any other
/// name what is visible there, else the script of that name.
pub open spec fn occurrence_spec(ws: WorkspaceIndex, cur: int, o: SemanticOccurrence, fuel: nat) -> Resolution<DeclRef>
    decreases fuel, 2int,
{
    let name = string_bytes(o.name);
    let doc = ws.documents@[cur].semantic;
    if o.kind == SemanticOccurrenceKind::NamedArgument {
        match named_argument_spec(ws, cur, o, fuel) {
            Some(d) => Resolution::Resolved(d),
            None => Resolution::Unsupported,
        }
    } else if o.kind == SemanticOccurrenceKind::Import {
        unique_script_spec(ws, name)
    } else if o.kind == SemanticOccurrenceKind::Type {
        type_name_spec(ws, cur, name)
    } else if same_ignoring_case(name, "self".spec_bytes()) {
        script_named(ws, doc.script_name)
    } else if same_ignoring_case(name, "parent".spec_bytes()) {
        script_named(ws, doc.parent_script)
    } else {
        match o.receiver {
            Some(r) => member_expression_spec(ws, cur, r, name),
            None => match visible_name_spec(ws, cur, name, o.byte_offset) {
                Resolution::Missing => unique_script_spec(ws, name),
                other => other,
            },
        }
    }
}

/// The parameter that a named argument's label names: that of the callee
/// of the narrowest call labelling it, when the callee is a function or an
/// event. The callee is found at a position of the same document, which
/// can itself be such a label; `fuel` bounds that chain.
pub open spec fn named_argument_spec(ws: WorkspaceIndex, cur: int, o: SemanticOccurrence, fuel: nat) -> Option<DeclRef>
    decreases fuel, 1int,
{
    let calls = ws.documents@[cur].semantic.call_sites@;
    let name = string_bytes(o.name);
    let k = innermost_call(calls, o.byte_offset as int, name, calls.len() as int);
    if k < 0 || fuel == 0 {
        None
    } else {
        match position_spec(ws, cur, calls[k].callee_range.start, (fuel - 1) as nat) {
            Resolution::Resolved(c) => if ws.decl(c).kind == DeclarationKind::Function || ws.decl(c).kind
                == DeclarationKind::Event {
                let p = parameter_of(ws, c, name, 0);
                if p < ws.declarations(c.document as int).len() {
                    Some(DeclRef { document: c.document, declaration: p as usize })
                } else {
                    None
                }
            } else {
                None
            },
            _ => None,
        }
    }
}

/// What a position denotes: the declaration named there, else the
/// occurrence there, else the word there.
pub open spec fn position_spec(ws: WorkspaceIndex, cur: int, p: Position, fuel: nat) -> Resolution<DeclRef>
    decreases fuel, 3int,
{
    let doc = ws.documents@[cur].semantic;
    let d = declaration_at(doc.declarations@, p, 0);
    let o = occurrence_at(doc.occurrences@, p, 0);
    if d < doc.declarations@.len() {
        Resolution::Resolved(DeclRef { document: cur as usize, declaration: d as usize })
    } else if o < doc.occurrences@.len() {
        occurrence_spec(ws, cur, doc.occurrences@[o], fuel)
    } else {
        match text_spec(ws, cur, p) {
            Some(d) => Resolution::Resolved(d),
            None => Resolution::Unsupported,
        }
    }
}

/// The members of a script and its ancestors as far as the chain can be
/// followed, nearest first, each name once.
pub open spec fn members_list_walk(
    ws: WorkspaceIndex,
    name: Seq<u8>,
    visited: Seq<Seq<u8>>,
    acc: Seq<DeclRef>,
    fuel: nat,
) -> Seq<DeclRef>
    decreases fuel,
{
    if fuel == 0 || visited.contains(crate::text::lower_seq(name)) {
        acc
    } else {
        match unique_script_spec(ws, name) {
            Resolution::Resolved(d) => {
                let doc = d.document as int;
                let acc2 = add_members(ws, doc, name, acc, ws.declarations(doc).len() as int);
                match ws.documents@[doc].semantic.parent_script {
                    Some(p) => members_list_walk(
                        ws,
                        string_bytes(p),
                        visited.push(crate::text::lower_seq(name)),
                        acc2,
                        (fuel - 1) as nat,
                    ),
                    None => acc2,
                }
            },
            _ => acc,
        }
    }
}

/// The structs and global functions named `name` of the scripts that the
/// first `k` imports name.
pub open spec fn imported_values(ws: WorkspaceIndex, cur: int, name: Seq<u8>, k: int) -> Seq<DeclRef>
    decreases k,
{
    let imports = ws.documents@[cur].semantic.imports@;
    if k <= 0 || k > imports.len() {
        Seq::empty()
    } else {
        imported_values(ws, cur, name, k - 1) + match unique_script_spec(ws, string_bytes(imports[k - 1])) {
            Resolution::Resolved(d) => selected(ws, d.document as int, FilterSpec::ImportedValue(name)),
            _ => Seq::empty(),
        }
    }
}

/// The one declaration visible as `name` at `offset`, looked for in turn
/// among scoped and top-level declarations, the members of the document's
/// script, and the imports.
#[verifier::opaque]
pub open spec fn visible_option(ws: WorkspaceIndex, cur: int, name: Seq<u8>, offset: usize) -> Option<DeclRef> {
    let doc = ws.documents@[cur].semantic;
    let scoped = outcome_option(named_outcome_spec(ws, selected(ws, cur, FilterSpec::Scoped(name, offset)), name));
    let top = outcome_option(named_outcome_spec(ws, selected(ws, cur, FilterSpec::TopLevel(name)), name));
    if scoped is Some {
        scoped
    } else if top is Some {
        top
    } else {
        match outcome_option(script_named(ws, doc.script_name)) {
            None => None,
            Some(script) => {
                let members = members_list_walk(
                    ws,
                    string_bytes(ws.decl(script).name),
                    Seq::empty(),
                    Seq::empty(),
                    ws.documents@.len() as nat,
                );
                match outcome_option(named_outcome_spec(ws, members, name)) {
                    Some(d) => Some(d),
                    None => outcome_option(
                        named_outcome_spec(ws, imported_values(ws, cur, name, doc.imports@.len() as int), name),
                    ),
                }
            },
        }
    }
}

/// The member `name` of what the identifier `receiver` at `offset` denotes.
#[verifier::opaque]
pub open spec fn receiver_member(ws: WorkspaceIndex, cur: int, receiver: Seq<u8>, offset: usize, name: Seq<u8>) -> Resolution<
    DeclRef,
> {
    match identifier_spec(ws, cur, receiver, offset) {
        Resolution::Resolved(rv) => member_spec(ws, cur, rv, name),
        Resolution::Ambiguous => Resolution::Ambiguous,
        _ => Resolution::Unsupported,
    }
}

/// What the word at a position names: a member of the receiver before a
/// dot, else what is visible there, else a script of that name.
pub open spec fn text_spec(ws: WorkspaceIndex, cur: int, p: Position) -> Option<DeclRef> {
    let b = string_bytes(ws.documents@[cur].semantic.text);
    let offset = byte_offset_spec(line_starts_of(b), b, p) as usize;
    if b.len() == 0 {
        None
    } else {
        match word_span(b, offset as int) {
            None => None,
            Some((s, e)) => {
                let name = b.subrange(s, e);
                match receiver_before_dot_spec(b, skip_back(b, clamp(b, offset as int), ByteClass::Word)) {
                    Some(receiver) => outcome_option(receiver_member(ws, cur, receiver, offset, name)),
                    None => match visible_option(ws, cur, name, offset) {
                        Some(d) => Some(d),
                        None => outcome_option(unique_script_spec(ws, name)),
                    },
                }
            },
        }
    }
}

fn holds(range: TextRange, p: Position) -> (r: bool)
    ensures
        r == range_holds(range, p),
{
    crate::line_index::position_less_equal(range.start, p) && !crate::line_index::position_less_equal(range.end, p)
}

pub(crate) fn find_declaration_at(ds: &Vec<crate::semantic::Declaration>, p: Position) -> (r: usize)
    ensures
        r as int == declaration_at(ds@, p, 0),
{
    let mut i: usize = 0;
    while i < ds.len()
        invariant
            0 <= i <= ds@.len(),
            declaration_at(ds@, p, i as int) == declaration_at(ds@, p, 0),
        decreases ds@.len() - i,
    {
        if holds(ds[i].selection_range, p) {
            return i;
        }
        i = i + 1;
    }
    i
}

pub(crate) fn find_occurrence_at(os: &Vec<SemanticOccurrence>, p: Position) -> (r: usize)
    ensures
        r as int == occurrence_at(os@, p, 0),
{
    let mut i: usize = 0;
    while i < os.len()
        invariant
            0 <= i <= os@.len(),
            occurrence_at(os@, p, i as int) == occurrence_at(os@, p, 0),
        decreases os@.len() - i,
    {
        if holds(os[i].selection_range, p) {
            return i;
        }
        i = i + 1;
    }
    i
}

fn call_labels(call: &crate::semantic::SemanticCallSite, offset: usize, name: &String) -> (r: bool)
    ensures
        r == labels(*call, offset as int, string_bytes(*name)),
{
    if !call.contains_offset(offset) {
        return false;
    }
    match call.argument_at(offset) {
        Some((_, Some(n))) => crate::semantic::strings_match(&n, name),
        _ => false,
    }
}

/// The narrowest call whose argument list labels `name` at `offset`.
fn find_innermost_call(calls: &Vec<crate::semantic::SemanticCallSite>, offset: usize, name: &String) -> (r: Option<
    usize,
>)
    ensures
        match r {
            Some(k) => k as int == innermost_call(calls@, offset as int, string_bytes(*name), calls@.len() as int)
                && k < calls@.len(),
            None => innermost_call(calls@, offset as int, string_bytes(*name), calls@.len() as int) < 0,
        },
{
    let ghost nm = string_bytes(*name);
    let mut best: Option<usize> = None;
    let mut k: usize = 0;
    while k < calls.len()
        invariant
            0 <= k <= calls@.len(),
            nm == string_bytes(*name),
            match best {
                Some(b) => b as int == innermost_call(calls@, offset as int, nm, k as int) && b < k,
                None => innermost_call(calls@, offset as int, nm, k as int) < 0,
            },
        decreases calls@.len() - k,
    {
        if call_labels(&calls[k], offset, name) {
            let span = calls[k].argument_span();
            match best {
                None => {
                    best = Some(k);
                },
                Some(b) => {
                    if span < calls[b].argument_span() {
                        best = Some(k);
                    }
                },
            }
        }
        k = k + 1;
    }
    best
}

impl WorkspaceIndex {
    /// The type named `name` (`resolve_type_name_outcome`).
    pub fn resolve_type_name_outcome(&self, cur: usize, name: &String) -> (r: Resolution<DeclRef>)
        requires
            cur < self.documents@.len(),
        ensures
            r == type_name_spec(*self, cur as int, string_bytes(*name)),
            r matches Resolution::Resolved(d) ==> self.valid_ref(d),
    {
        if crate::type_system::is_primitive_name(name) {
            return Resolution::Unsupported;
        }
        let b = name.as_str().as_bytes();
        let refs = self.select_declarations(cur, &DeclFilter::Structure(b));
        proof {
            lemma_named_outcome_valid(*self, refs@, b@);
        }
        match self.named_outcome(&refs, b) {
            Resolution::Missing => {},
            other => return other,
        }
        match self.unique_script_outcome(b) {
            Resolution::Resolved(d) => Resolution::Resolved(d),
            Resolution::Ambiguous => Resolution::Ambiguous,
            _ => self.resolve_structure_outcome(cur, b),
        }
    }

    /// The member `member` of what `receiver` denotes (`resolve_member_expression_outcome`).
    pub fn resolve_member_expression_outcome(&self, cur: usize, receiver: &SemanticExpression, member: &[u8]) -> (r: Resolution<
        DeclRef,
    >)
        requires
            cur < self.documents@.len(),
        ensures
            r == member_expression_spec(*self, cur as int, *receiver, member@),
            r matches Resolution::Resolved(d) ==> self.valid_ref(d),
    {
        match self.resolve_expression(cur, receiver, 0) {
            Resolution::Resolved(rv) => self.resolve_member_from_resolution(cur, &rv, member),
            Resolution::Ambiguous => Resolution::Ambiguous,
            _ => Resolution::Unsupported,
        }
    }

    pub(crate) fn script_named_outcome(&self, name: &Option<String>) -> (r: Resolution<DeclRef>)
        ensures
            r == script_named(*self, *name),
            r matches Resolution::Resolved(d) ==> self.valid_ref(d),
    {
        match name {
            Some(n) => self.unique_script_outcome(n.as_str().as_bytes()),
            None => Resolution::Unsupported,
        }
    }

    fn find_parameter(&self, callee: DeclRef, name: &String) -> (r: usize)
        requires
            self.valid_ref(callee),
        ensures
            r as int == parameter_of(*self, callee, string_bytes(*name), 0),
    {
        let ds = &self.documents[callee.document].semantic.declarations;
        let c = &self.documents[callee.document].semantic.declarations[callee.declaration];
        let mut i: usize = 0;
        while i < ds.len()
            invariant
                self.valid_ref(callee),
                ds@ == self.declarations(callee.document as int),
                *c == self.decl(callee),
                0 <= i <= ds@.len(),
                parameter_of(*self, callee, string_bytes(*name), i as int) == parameter_of(
                    *self,
                    callee,
                    string_bytes(*name),
                    0,
                ),
            decreases ds@.len() - i,
        {
            let d = &ds[i];
            let container_ok = match &d.container {
                Some(ct) => crate::semantic::strings_match(ct, &c.name),
                None => false,
            };
            let owner_ok = match (&d.owner_script, &c.owner_script) {
                (Some(a), Some(b)) => crate::text::bytes_equal(a.as_str().as_bytes(), b.as_str().as_bytes()),
                (None, None) => true,
                _ => false,
            };
            if d.kind == DeclarationKind::Parameter && crate::semantic::strings_match(&d.name, name) && container_ok
                && owner_ok {
                return i;
            }
            i = i + 1;
        }
        i
    }
}

impl WorkspaceIndex {
    /// The members of a script and its ancestors as far as the chain can be
    /// followed (`members_of`).
    pub fn members_of(&self, script: DeclRef) -> (r: Vec<DeclRef>)
        requires
            self.valid_ref(script),
        ensures
            r@ == members_list_walk(
                *self,
                string_bytes(self.decl(script).name),
                Seq::empty(),
                Seq::empty(),
                self.documents@.len() as nat,
            ),
            self.valid_refs(r@),
    {
        let n = self.documents.len();
        let mut name: String = self.documents[script.document].semantic.declarations[script.declaration].name.clone();
        let mut visited: Vec<Vec<u8>> = Vec::new();
        let mut members: Vec<DeclRef> = Vec::new();
        let mut fuel: usize = n;
        let ghost target = members_list_walk(
            *self,
            string_bytes(self.decl(script).name),
            Seq::empty(),
            Seq::empty(),
            self.documents@.len() as nat,
        );
        assert(crate::workspace::byte_views(visited@) =~= Seq::<Seq<u8>>::empty());
        assert(members@ =~= Seq::<DeclRef>::empty());
        while fuel > 0
            invariant
                n == self.documents@.len(),
                self.valid_refs(members@),
                target == members_list_walk(
                    *self,
                    string_bytes(self.decl(script).name),
                    Seq::empty(),
                    Seq::empty(),
                    self.documents@.len() as nat,
                ),
                members_list_walk(*self, string_bytes(name), crate::workspace::byte_views(visited@), members@, fuel as nat)
                    == target,
            decreases fuel,
        {
            let raw = name.as_str().as_bytes();
            let lowered = crate::text::lowercase_range(raw, 0, raw.len());
            assert(raw@.subrange(0, raw@.len() as int) =~= raw@);
            if crate::workspace::seen_before(&visited, &lowered) {
                return members;
            }
            let d = match self.unique_script_outcome(name.as_str().as_bytes()) {
                Resolution::Resolved(d) => d,
                _ => return members,
            };
            let ds = &self.documents[d.document].semantic.declarations;
            let ghost start = members@;
            let mut i: usize = 0;
            while i < ds.len()
                invariant
                    d.document < self.documents@.len(),
                    ds@ == self.declarations(d.document as int),
                    0 <= i <= ds@.len(),
                    self.valid_refs(members@),
                    members@ == add_members(*self, d.document as int, string_bytes(name), start, i as int),
                decreases ds@.len() - i,
            {
                let decl = &ds[i];
                let member = match &decl.owner_script {
                    Some(owner) => crate::semantic::strings_match(owner, &name),
                    None => false,
                } && decl.container.is_none() && decl.kind != DeclarationKind::Script && decl.kind
                    != DeclarationKind::Parameter && !decl.is_global;
                if member && !self.has_named_exec(&members, decl.name.as_str().as_bytes()) {
                    members.push(DeclRef { document: d.document, declaration: i });
                }
                i = i + 1;
            }
            match &self.documents[d.document].semantic.parent_script {
                Some(parent) => {
                    let ghost before = crate::workspace::byte_views(visited@);
                    assert(lowered@ == crate::text::lower_seq(string_bytes(name)));
                    visited.push(lowered);
                    assert(crate::workspace::byte_views(visited@) =~= before.push(
                        crate::text::lower_seq(string_bytes(name)),
                    ));
                    name = parent.clone();
                    fuel = fuel - 1;
                },
                None => return members,
            }
        }
        members
    }

    pub(crate) fn resolve_imported(&self, cur: usize, name: &[u8]) -> (r: Vec<DeclRef>)
        requires
            cur < self.documents@.len(),
        ensures
            r@ == imported_values(*self, cur as int, name@, self.documents@[cur as int].semantic.imports@.len() as int),
            self.valid_refs(r@),
    {
        let imports = &self.documents[cur].semantic.imports;
        let mut out: Vec<DeclRef> = Vec::new();
        let mut k: usize = 0;
        assert(out@ =~= imported_values(*self, cur as int, name@, 0));
        while k < imports.len()
            invariant
                cur < self.documents@.len(),
                imports@ == self.documents@[cur as int].semantic.imports@,
                0 <= k <= imports@.len(),
                out@ == imported_values(*self, cur as int, name@, k as int),
                self.valid_refs(out@),
            decreases imports@.len() - k,
        {
            match self.unique_script_outcome(imports[k].as_str().as_bytes()) {
                Resolution::Resolved(d) => {
                    let mut found = self.select_declarations(d.document, &DeclFilter::ImportedValue(name));
                    let ghost before = out@;
                    let ghost more = found@;
                    out.append(&mut found);
                    assert(out@ =~= imported_values(*self, cur as int, name@, k + 1));
                    assert forall|j: int| 0 <= j < out@.len() implies self.valid_ref(#[trigger] out@[j]) by {
                        if j < before.len() {
                            assert(out@[j] == before[j]);
                        } else {
                            assert(out@[j] == more[j - before.len()]);
                        }
                    }
                },
                _ => {
                    assert(out@ =~= imported_values(*self, cur as int, name@, k + 1));
                },
            }
            k = k + 1;
        }
        out
    }

    pub(crate) fn resolve_visible_name(&self, cur: usize, name: &[u8], offset: usize) -> (r: Option<DeclRef>)
        requires
            cur < self.documents@.len(),
        ensures
            r == visible_option(*self, cur as int, name@, offset),
            r matches Some(d) ==> self.valid_ref(d),
    {
        proof {
            reveal(visible_option);
        }
        let scoped_refs = self.select_declarations(cur, &DeclFilter::Scoped(name, offset));
        proof {
            lemma_named_outcome_valid(*self, scoped_refs@, name@);
        }
        if let Resolution::Resolved(d) = self.named_outcome(&scoped_refs, name) {
            return Some(d);
        }
        let top_refs = self.select_declarations(cur, &DeclFilter::TopLevel(name));
        proof {
            lemma_named_outcome_valid(*self, top_refs@, name@);
        }
        if let Resolution::Resolved(d) = self.named_outcome(&top_refs, name) {
            return Some(d);
        }
        let script = match self.script_named_outcome(&self.documents[cur].semantic.script_name) {
            Resolution::Resolved(s) => s,
            _ => return None,
        };
        let members = self.members_of(script);
        proof {
            lemma_named_outcome_valid(*self, members@, name@);
        }
        if let Resolution::Resolved(d) = self.named_outcome(&members, name) {
            return Some(d);
        }
        let imported = self.resolve_imported(cur, name);
        proof {
            lemma_named_outcome_valid(*self, imported@, name@);
        }
        self.named_outcome(&imported, name).into_option()
    }

    pub(crate) fn receiver_member_outcome(&self, cur: usize, receiver: String, offset: usize, name: &[u8]) -> (r: Resolution<
        DeclRef,
    >)
        requires
            cur < self.documents@.len(),
        ensures
            r == receiver_member(*self, cur as int, string_bytes(receiver), offset, name@),
            r matches Resolution::Resolved(d) ==> self.valid_ref(d),
    {
        proof {
            reveal(receiver_member);
        }
        let ghost rb = string_bytes(receiver);
        let e = SemanticExpression::Identifier {
            name: receiver,
            byte_offset: offset,
            range: TextRange { start: Position { line: 0, character: 0 }, end: Position { line: 0, character: 0 } },
        };
        self.resolve_member_expression_outcome(cur, &e, name)
    }

    /// What the word at a position names (`resolve_text_at`).
    pub(crate) fn resolve_text_at(&self, cur: usize, p: Position) -> (r: Option<DeclRef>)
        requires
            cur < self.documents@.len(),
        ensures
            r == text_spec(*self, cur as int, p),
            r matches Some(d) ==> self.valid_ref(d),
    {
        let text = self.documents[cur].semantic.text.as_str();
        if text.as_bytes().len() == 0 {
            return None;
        }
        let index = LineIndex::new(text);
        let offset = index.byte_offset(text, p);
        let name = match crate::names::word_at(text, offset) {
            Some(n) => n,
            None => return None,
        };
        match crate::names::receiver_before_member(text, offset) {
            Some(receiver) => self.receiver_member_outcome(cur, receiver, offset, name.as_str().as_bytes()).into_option(),
            None => match self.resolve_visible_name(cur, name.as_str().as_bytes(), offset) {
                Some(d) => Some(d),
                None => self.unique_script_outcome(name.as_str().as_bytes()).into_option(),
            },
        }
    }
}

/// What a position denotes, with the fuel of a document: the number of its
/// calls, enough for every chain of labels that does not come back to a call.
pub open spec fn at_spec(ws: WorkspaceIndex, cur: int, p: Position) -> Resolution<DeclRef> {
    position_spec(ws, cur, p, ws.documents@[cur].semantic.call_sites@.len() as nat)
}

/// What an occurrence denotes, with the fuel of its document.
pub open spec fn occurrence_outcome_spec(ws: WorkspaceIndex, cur: int, o: SemanticOccurrence) -> Resolution<DeclRef> {
    occurrence_spec(ws, cur, o, ws.documents@[cur].semantic.call_sites@.len() as nat)
}

impl WorkspaceIndex {
    fn position_outcome(&self, cur: usize, p: Position, fuel: usize) -> (r: Resolution<DeclRef>)
        requires
            cur < self.documents@.len(),
        ensures
            r == position_spec(*self, cur as int, p, fuel as nat),
            r matches Resolution::Resolved(d) ==> self.valid_ref(d),
        decreases fuel, 3int,
    {
        let doc = &self.documents[cur].semantic;
        let d = find_declaration_at(&doc.declarations, p);
        if d < doc.declarations.len() {
            return Resolution::Resolved(DeclRef { document: cur, declaration: d });
        }
        let o = find_occurrence_at(&doc.occurrences, p);
        if o < doc.occurrences.len() {
            return self.occurrence_outcome(cur, &doc.occurrences[o], fuel);
        }
        match self.resolve_text_at(cur, p) {
            Some(d) => Resolution::Resolved(d),
            None => Resolution::Unsupported,
        }
    }

    fn occurrence_outcome(&self, cur: usize, o: &SemanticOccurrence, fuel: usize) -> (r: Resolution<DeclRef>)
        requires
            cur < self.documents@.len(),
        ensures
            r == occurrence_spec(*self, cur as int, *o, fuel as nat),
            r matches Resolution::Resolved(d) ==> self.valid_ref(d),
        decreases fuel, 2int,
    {
        let name = o.name.as_str().as_bytes();
        if o.kind == SemanticOccurrenceKind::NamedArgument {
            return match self.resolve_named_argument_parameter(cur, o, fuel) {
                Some(d) => Resolution::Resolved(d),
                None => Resolution::Unsupported,
            };
        }
        if o.kind == SemanticOccurrenceKind::Import {
            return self.unique_script_outcome(name);
        }
        if o.kind == SemanticOccurrenceKind::Type {
            return self.resolve_type_name_outcome(cur, &o.name);
        }
        let doc = &self.documents[cur].semantic;
        if crate::text::str_equal_ignoring_case(o.name.as_str(), "self") {
            return self.script_named_outcome(&doc.script_name);
        }
        if crate::text::str_equal_ignoring_case(o.name.as_str(), "parent") {
            return self.script_named_outcome(&doc.parent_script);
        }
        match &o.receiver {
            Some(r) => self.resolve_member_expression_outcome(cur, r, name),
            None => match self.resolve_visible_name_outcome(cur, name, o.byte_offset) {
                Resolution::Missing => self.unique_script_outcome(name),
                other => other,
            },
        }
    }

    fn resolve_named_argument_parameter(&self, cur: usize, o: &SemanticOccurrence, fuel: usize) -> (r: Option<DeclRef>)
        requires
            cur < self.documents@.len(),
        ensures
            r == named_argument_spec(*self, cur as int, *o, fuel as nat),
            r matches Some(d) ==> self.valid_ref(d),
        decreases fuel, 1int,
    {
        let calls = &self.documents[cur].semantic.call_sites;
        let k = match find_innermost_call(calls, o.byte_offset, &o.name) {
            Some(k) => k,
            None => return None,
        };
        if fuel == 0 {
            return None;
        }
        match self.position_outcome(cur, calls[k].callee_range.start, fuel - 1) {
            Resolution::Resolved(c) => {
                let kind = self.documents[c.document].semantic.declarations[c.declaration].kind;
                if kind == DeclarationKind::Function || kind == DeclarationKind::Event {
                    let p = self.find_parameter(c, &o.name);
                    if p < self.documents[c.document].semantic.declarations.len() {
                        Some(DeclRef { document: c.document, declaration: p })
                    } else {
                        None
                    }
                } else {
                    None
                }
            },
            _ => None,
        }
    }

    /// What a position of a document denotes (`resolve_at_outcome`).
    pub fn resolve_at_outcome(&self, cur: usize, p: Position) -> (r: Resolution<DeclRef>)
        requires
            cur < self.documents@.len(),
        ensures
            r == at_spec(*self, cur as int, p),
            r matches Resolution::Resolved(d) ==> self.valid_ref(d),
    {
        self.position_outcome(cur, p, self.documents[cur].semantic.call_sites.len())
    }

    /// What an occurrence of a document denotes (`resolve_occurrence_outcome`).
    pub fn resolve_occurrence_outcome(&self, cur: usize, o: &SemanticOccurrence) -> (r: Resolution<DeclRef>)
        requires
            cur < self.documents@.len(),
        ensures
            r == occurrence_outcome_spec(*self, cur as int, *o),
            r matches Resolution::Resolved(d) ==> self.valid_ref(d),
    {
        self.occurrence_outcome(cur, o, self.documents[cur].semantic.call_sites.len())
    }
}

proof fn lemma_declaration_at(ds: Seq<crate::semantic::Declaration>, p: Position, i: int, k: int)
    requires
        0 <= i <= k < ds.len(),
        range_holds(ds[k].selection_range, p),
        forall|j: int| 0 <= j < k ==> !range_holds(#[trigger] ds[j].selection_range, p),
    ensures
        declaration_at(ds, p, i) == k,
    decreases k - i,
{
    if i < k {
        lemma_declaration_at(ds, p, i + 1, k);
    }
}

/// At the name of a declaration, the declaration itself is what the
/// position denotes: the first declaration whose name holds the position.
pub proof fn law_declaration_name_denotes_itself(ws: WorkspaceIndex, cur: int, k: int, p: Position)
    requires
        0 <= cur < ws.documents@.len(),
        0 <= k < ws.declarations(cur).len(),
        range_holds(ws.declarations(cur)[k].selection_range, p),
        forall|j: int| 0 <= j < k ==> !range_holds(#[trigger] ws.declarations(cur)[j].selection_range, p),
    ensures
        at_spec(ws, cur, p) == Resolution::<DeclRef>::Resolved(DeclRef { document: cur as usize, declaration: k as usize }),
{
    lemma_declaration_at(ws.declarations(cur), p, 0, k);
}

} // verus!
