//! Completion: the declarations offered at a position, after a member
//! access or in the open, each name once and in case-insensitive order,
//! with the primitive type names where no declaration takes them.
use vstd::prelude::*;
use vstd::string::StringSliceAdditionalSpecFns;
use crate::inference::Resolution;
use crate::line_index::{LineIndex, Position, byte_offset_spec, line_starts_of};
use crate::names::spec_is_instance_completion_candidate;
use crate::navigation::{imported_values, members_list_walk, outcome_option};
use crate::resolution::{ExpressionResolution, ExpressionResolutionView, resolve_spec};
use crate::semantic::{Declaration, DeclarationKind, SemanticExpression, SemanticMemberAccess};
use crate::text::{lower_seq, same_ignoring_case, string_bytes};
use crate::type_system::ValueTypeView;
use crate::queries::signature_spec;
use crate::workspace::{bytes_less, 
    DeclFilter, DeclRef, FilterSpec, WorkspaceIndex, lemma_named_outcome_valid, named_outcome_spec, selected,
    unique_script_spec,
};

verus! {

/// The members of a script and of its ancestors.
pub open spec fn script_members(ws: WorkspaceIndex, s: DeclRef) -> Seq<DeclRef> {
    members_list_walk(ws, string_bytes(ws.decl(s).name), Seq::empty(), Seq::empty(), ws.documents@.len() as nat)
}

/// The members of the type named `name`: those of the script of that name,
/// else the fields of the struct of that name that the imports provide.
pub open spec fn type_members_spec(ws: WorkspaceIndex, cur: int, name: Seq<u8>) -> Seq<DeclRef> {
    match unique_script_spec(ws, name) {
        Resolution::Resolved(s) => script_members(ws, s),
        _ => match outcome_option(
            named_outcome_spec(
                ws,
                imported_values(ws, cur, name, ws.documents@[cur].semantic.imports@.len() as int),
                name,
            ),
        ) {
            Some(st) => if ws.decl(st).kind == DeclarationKind::Struct {
                selected(ws, st.document as int, FilterSpec::Container(string_bytes(ws.decl(st).name)))
            } else {
                Seq::empty()
            },
            None => Seq::empty(),
        },
    }
}

/// The members of what an expression denotes: of the declared scalar type
/// of a declaration, of a script, or of the scalar type of a value.
pub open spec fn expression_members_spec(ws: WorkspaceIndex, cur: int, e: SemanticExpression) -> Seq<DeclRef> {
    match resolve_spec(ws, cur, e, 0) {
        Resolution::Resolved(ExpressionResolutionView::Declaration(d)) => match ws.decl(d).ty {
            Some(t) => if t.array {
                Seq::empty()
            } else {
                type_members_spec(ws, cur, string_bytes(t.name))
            },
            None => Seq::empty(),
        },
        Resolution::Resolved(ExpressionResolutionView::Script(s)) => script_members(ws, s),
        Resolution::Resolved(ExpressionResolutionView::Value(ValueTypeView::Known(t))) => if t.array {
            Seq::empty()
        } else {
            type_members_spec(ws, cur, t.name)
        },
        _ => Seq::empty(),
    }
}

proof fn lemma_add_members_names(ws: WorkspaceIndex, doc: int, owner: Seq<u8>, acc: Seq<DeclRef>, k: int)
    requires
        0 <= doc < ws.documents@.len(),
        doc <= usize::MAX,
        0 <= k <= ws.declarations(doc).len(),
        k <= usize::MAX,
    ensures
        acc.is_prefix_of(crate::workspace::add_members(ws, doc, owner, acc, k)),
        forall|i: int| 0 <= i < k && crate::workspace::is_member_of(#[trigger] ws.declarations(doc)[i], owner)
            ==> crate::workspace::has_named(
            ws,
            crate::workspace::add_members(ws, doc, owner, acc, k),
            string_bytes(ws.declarations(doc)[i].name),
        ),
    decreases k,
{
    if k > 0 {
        lemma_add_members_names(ws, doc, owner, acc, k - 1);
        let rest = crate::workspace::add_members(ws, doc, owner, acc, k - 1);
        let r = crate::workspace::add_members(ws, doc, owner, acc, k);
        let d = ws.declarations(doc)[k - 1];
        let dr = DeclRef { document: doc as usize, declaration: (k - 1) as usize };
        assert(rest.is_prefix_of(r));
        assert forall|i: int| 0 <= i < k && crate::workspace::is_member_of(#[trigger] ws.declarations(doc)[i], owner)
            implies crate::workspace::has_named(ws, r, string_bytes(ws.declarations(doc)[i].name)) by {
            let n = string_bytes(ws.declarations(doc)[i].name);
            if i < k - 1 {
                let j = choose|j: int| 0 <= j < rest.len() && crate::workspace::named(ws.decl(#[trigger] rest[j]), n);
                assert(r[j] == rest[j]);
            } else if crate::workspace::has_named(ws, rest, n) {
                let j = choose|j: int| 0 <= j < rest.len() && crate::workspace::named(ws.decl(#[trigger] rest[j]), n);
                assert(r[j] == rest[j]);
            } else {
                assert(r[rest.len() as int] == dr);
                assert(ws.decl(dr) == d);
                assert(crate::workspace::named(ws.decl(r[rest.len() as int]), n));
            }
        }
        assert(acc.is_prefix_of(r));
    }
}

proof fn lemma_add_members_prefix(ws: WorkspaceIndex, doc: int, owner: Seq<u8>, acc: Seq<DeclRef>, k: int)
    ensures
        acc.is_prefix_of(crate::workspace::add_members(ws, doc, owner, acc, k)),
    decreases k,
{
    if k > 0 {
        lemma_add_members_prefix(ws, doc, owner, acc, k - 1);
    }
}

proof fn lemma_members_walk_keeps(ws: WorkspaceIndex, name: Seq<u8>, visited: Seq<Seq<u8>>, acc: Seq<DeclRef>, fuel: nat)
    ensures
        acc.is_prefix_of(members_list_walk(ws, name, visited, acc, fuel)),
    decreases fuel,
{
    if fuel > 0 && !visited.contains(lower_seq(name)) {
        if let Resolution::Resolved(d) = unique_script_spec(ws, name) {
            let doc = d.document as int;
            lemma_add_members_prefix(ws, doc, name, acc, ws.declarations(doc).len() as int);
            let acc2 = crate::workspace::add_members(ws, doc, name, acc, ws.declarations(doc).len() as int);
            match ws.documents@[doc].semantic.parent_script {
                Some(p) => {
                    lemma_members_walk_keeps(ws, string_bytes(p), visited.push(lower_seq(name)), acc2, (fuel - 1) as nat);
                },
                None => {},
            }
        }
    }
}

/// When a member access's receiver denotes a script, the candidates are
/// the members of that script and of its ancestors, as `members_of` walks
/// them: in particular every member the script itself declares (each name
/// at least once); and, when the script's name resolves to that script,
/// they are the same as for a value whose type is named like the script.
pub proof fn law_script_receiver_offers_script_members(ws: WorkspaceIndex, cur: int, e: SemanticExpression, s: DeclRef)
    requires
        resolve_spec(ws, cur, e, 0) == Resolution::Resolved(ExpressionResolutionView::Script(s)),
    ensures
        expression_members_spec(ws, cur, e) == members_list_walk(
            ws,
            string_bytes(ws.decl(s).name),
            Seq::empty(),
            Seq::empty(),
            ws.documents@.len() as nat,
        ),
        unique_script_spec(ws, string_bytes(ws.decl(s).name)) == Resolution::Resolved(s) ==> expression_members_spec(
            ws,
            cur,
            e,
        ) == type_members_spec(ws, cur, string_bytes(ws.decl(s).name)),
        ws.valid_ref(s) && ws.declarations(s.document as int).len() <= usize::MAX && unique_script_spec(
            ws,
            string_bytes(ws.decl(s).name),
        ) == Resolution::Resolved(s) ==> forall|i: int| 0 <= i < ws.declarations(s.document as int).len() && crate::workspace::is_member_of(
            #[trigger] ws.declarations(s.document as int)[i],
            string_bytes(ws.decl(s).name),
        ) ==> crate::workspace::has_named(
            ws,
            expression_members_spec(ws, cur, e),
            string_bytes(ws.declarations(s.document as int)[i].name),
        ),
{
    let name = string_bytes(ws.decl(s).name);
    if ws.valid_ref(s) && ws.declarations(s.document as int).len() <= usize::MAX && unique_script_spec(ws, name)
        == Resolution::Resolved(s) {
        let doc = s.document as int;
        let n = ws.declarations(doc).len() as int;
        lemma_add_members_names(ws, doc, name, Seq::empty(), n);
        let acc2 = crate::workspace::add_members(ws, doc, name, Seq::empty(), n);
        let r = expression_members_spec(ws, cur, e);
        assert(!Seq::<Seq<u8>>::empty().contains(lower_seq(name)));
        match ws.documents@[doc].semantic.parent_script {
            Some(p) => {
                lemma_members_walk_keeps(ws, string_bytes(p), seq![lower_seq(name)], acc2, (ws.documents@.len() - 1) as nat);
                assert(Seq::<Seq<u8>>::empty().push(lower_seq(name)) =~= seq![lower_seq(name)]);
            },
            None => {},
        }
        assert(acc2.is_prefix_of(r));
        assert forall|i: int| 0 <= i < n && crate::workspace::is_member_of(#[trigger] ws.declarations(doc)[i], name)
            implies crate::workspace::has_named(ws, r, string_bytes(ws.declarations(doc)[i].name)) by {
            let m = string_bytes(ws.declarations(doc)[i].name);
            let j = choose|j: int| 0 <= j < acc2.len() && crate::workspace::named(ws.decl(#[trigger] acc2[j]), m);
            assert(r[j] == acc2[j]);
        }
    }
}

/// The structs and global functions of the scripts that the first `k`
/// imports of the document at `cur` name.
pub open spec fn imported_completions(ws: WorkspaceIndex, cur: int, k: int) -> Seq<DeclRef>
    decreases k,
{
    let imports = ws.documents@[cur].semantic.imports@;
    if k <= 0 || k > imports.len() {
        Seq::empty()
    } else {
        imported_completions(ws, cur, k - 1) + match unique_script_spec(ws, string_bytes(imports[k - 1])) {
            Resolution::Resolved(d) => selected(ws, d.document as int, FilterSpec::Importable),
            _ => Seq::empty(),
        }
    }
}

/// The script declarations of the first `n` documents, in order.
pub open spec fn script_declarations(ws: WorkspaceIndex, n: int) -> Seq<DeclRef>
    decreases n,
{
    if n <= 0 || n > ws.documents@.len() {
        Seq::empty()
    } else {
        script_declarations(ws, n - 1) + selected(ws, n - 1, FilterSpec::ScriptDeclaration)
    }
}

/// No earlier reference among `refs` names the same as the one at `i`.
pub open spec fn first_of_name(ws: WorkspaceIndex, refs: Seq<DeclRef>, i: int) -> bool {
    forall|j: int| 0 <= j < i ==> !same_ignoring_case(string_bytes(#[trigger] ws.decl(refs[j]).name), string_bytes(ws.decl(refs[i]).name))
}

/// The script that each name of the first `k` script declarations resolves
/// to, once for each name, where it resolves uniquely.
pub open spec fn unique_scripts_upto(ws: WorkspaceIndex, s: Seq<DeclRef>, k: int) -> Seq<DeclRef>
    decreases k,
{
    if k <= 0 || k > s.len() {
        Seq::empty()
    } else {
        unique_scripts_upto(ws, s, k - 1) + if first_of_name(ws, s, k - 1) {
            match unique_script_spec(ws, string_bytes(ws.decl(s[k - 1]).name)) {
                Resolution::Resolved(d) => seq![d],
                _ => Seq::empty(),
            }
        } else {
            Seq::empty()
        }
    }
}

/// The scripts of the workspace that resolve uniquely, one for each name.
pub open spec fn unique_scripts_spec(ws: WorkspaceIndex) -> Seq<DeclRef> {
    let s = script_declarations(ws, ws.documents@.len() as int);
    unique_scripts_upto(ws, s, s.len() as int)
}

/// The references among the first `k` that are instance completion candidates.
pub open spec fn instance_candidates(ws: WorkspaceIndex, refs: Seq<DeclRef>, k: int) -> Seq<DeclRef>
    decreases k,
{
    if k <= 0 || k > refs.len() {
        Seq::empty()
    } else {
        instance_candidates(ws, refs, k - 1) + if spec_is_instance_completion_candidate(
            ws.decl(refs[k - 1]).is_const,
            string_bytes(ws.decl(refs[k - 1]).name),
        ) {
            seq![refs[k - 1]]
        } else {
            Seq::empty()
        }
    }
}

impl WorkspaceIndex {
    /// The members of the type named `name` (`members_of_type`).
    pub fn members_of_type(&self, cur: usize, name: &[u8]) -> (r: Vec<DeclRef>)
        requires
            cur < self.documents@.len(),
        ensures
            r@ == type_members_spec(*self, cur as int, name@),
            self.valid_refs(r@),
    {
        if let Resolution::Resolved(s) = self.unique_script_outcome(name) {
            return self.members_of(s);
        }
        let imported = self.resolve_imported(cur, name);
        proof {
            lemma_named_outcome_valid(*self, imported@, name@);
        }
        match self.named_outcome(&imported, name) {
            Resolution::Resolved(st) => {
                let decl = &self.documents[st.document].semantic.declarations[st.declaration];
                if decl.kind == DeclarationKind::Struct {
                    self.select_declarations(st.document, &DeclFilter::Container(decl.name.as_str().as_bytes()))
                } else {
                    Vec::new()
                }
            },
            _ => Vec::new(),
        }
    }

    /// The members of what an expression denotes (`members_for_expression`).
    pub fn members_for_expression(&self, cur: usize, e: &SemanticExpression) -> (r: Vec<DeclRef>)
        requires
            cur < self.documents@.len(),
        ensures
            r@ == expression_members_spec(*self, cur as int, *e),
            self.valid_refs(r@),
    {
        match self.resolve_expression(cur, e, 0) {
            Resolution::Resolved(ExpressionResolution::Declaration(d)) => {
                match &self.documents[d.document].semantic.declarations[d.declaration].ty {
                    Some(t) => match t.scalar_name() {
                        Some(name) => self.members_of_type(cur, name.as_bytes()),
                        None => Vec::new(),
                    },
                    None => Vec::new(),
                }
            },
            Resolution::Resolved(ExpressionResolution::Script(s)) => self.members_of(s),
            Resolution::Resolved(ExpressionResolution::Value(crate::type_system::ValueType::Known(t))) => {
                match t.scalar_name() {
                    Some(name) => self.members_of_type(cur, name.as_bytes()),
                    None => Vec::new(),
                }
            },
            _ => Vec::new(),
        }
    }

    /// The scripts that resolve uniquely, one for each name (`unique_scripts`).
    pub fn unique_scripts(&self) -> (r: Vec<DeclRef>)
        ensures
            r@ == unique_scripts_spec(*self),
            self.valid_refs(r@),
    {
        let n = self.documents.len();
        let mut all: Vec<DeclRef> = Vec::new();
        let mut j: usize = 0;
        while j < n
            invariant
                n == self.documents@.len(),
                0 <= j <= n,
                all@ == script_declarations(*self, j as int),
                self.valid_refs(all@),
            decreases n - j,
        {
            let mut found = self.select_declarations(j, &DeclFilter::ScriptDeclaration);
            let ghost before = all@;
            let ghost more = found@;
            all.append(&mut found);
            assert(all@ =~= script_declarations(*self, j + 1));
            assert forall|t: int| 0 <= t < all@.len() implies self.valid_ref(#[trigger] all@[t]) by {
                if t < before.len() {
                    assert(all@[t] == before[t]);
                } else {
                    assert(all@[t] == more[t - before.len()]);
                }
            }
            j = j + 1;
        }
        let mut out: Vec<DeclRef> = Vec::new();
        let mut k: usize = 0;
        while k < all.len()
            invariant
                n == self.documents@.len(),
                all@ == script_declarations(*self, n as int),
                self.valid_refs(all@),
                0 <= k <= all@.len(),
                out@ == unique_scripts_upto(*self, all@, k as int),
                self.valid_refs(out@),
            decreases all@.len() - k,
        {
            let name = &self.documents[all[k].document].semantic.declarations[all[k].declaration].name;
            let mut first = true;
            let mut t: usize = 0;
            while t < k
                invariant
                    0 <= t <= k < all@.len(),
                    self.valid_refs(all@),
                    name == self.decl(all@[k as int]).name,
                    first == (forall|u: int| 0 <= u < t ==> !same_ignoring_case(
                        string_bytes(#[trigger] self.decl(all@[u]).name),
                        string_bytes(*name),
                    )),
                decreases k - t,
            {
                assert(self.valid_ref(all@[t as int]));
                let m = crate::semantic::strings_match(
                    &self.documents[all[t].document].semantic.declarations[all[t].declaration].name,
                    name,
                );
                assert(m == same_ignoring_case(string_bytes(self.decl(all@[t as int]).name), string_bytes(*name)));
                first = first && !m;
                t = t + 1;
            }
            assert(first == first_of_name(*self, all@, k as int));
            if first {
                if let Resolution::Resolved(d) = self.unique_script_outcome(name.as_str().as_bytes()) {
                    out.push(d);
                }
            }
            proof {
                assert(out@ =~= unique_scripts_upto(*self, all@, k + 1));
            }
            k = k + 1;
        }
        out
    }
}

/// What a completion item offers.
#[derive(Clone, Copy, Debug, PartialEq, Eq, Structural)]
pub enum CompletionKind {
    Class,
    Property,
    Function,
    Event,
    Variable,
    Module,
    TypeParameter,
}

pub open spec fn completion_kind_spec(kind: DeclarationKind) -> CompletionKind {
    match kind {
        DeclarationKind::Script | DeclarationKind::Struct => CompletionKind::Class,
        DeclarationKind::Property => CompletionKind::Property,
        DeclarationKind::Function => CompletionKind::Function,
        DeclarationKind::Event => CompletionKind::Event,
        DeclarationKind::Variable | DeclarationKind::Parameter | DeclarationKind::Guard => CompletionKind::Variable,
        DeclarationKind::State => CompletionKind::Module,
    }
}

/// The kind of item that a declaration is offered as (`completion_kind`).
pub fn completion_kind(kind: DeclarationKind) -> (r: CompletionKind)
    ensures
        r == completion_kind_spec(kind),
{
    match kind {
        DeclarationKind::Script | DeclarationKind::Struct => CompletionKind::Class,
        DeclarationKind::Property => CompletionKind::Property,
        DeclarationKind::Function => CompletionKind::Function,
        DeclarationKind::Event => CompletionKind::Event,
        DeclarationKind::Variable | DeclarationKind::Parameter | DeclarationKind::Guard => CompletionKind::Variable,
        DeclarationKind::State => CompletionKind::Module,
    }
}

/// A completion item: its label, kind, detail and documentation.
#[derive(Debug)]
pub struct CompletionItem {
    pub label: String,
    pub kind: CompletionKind,
    pub detail: String,
    pub documentation: Option<String>,
}

pub struct CompletionItemView {
    pub label: Seq<u8>,
    pub kind: CompletionKind,
    pub detail: Seq<char>,
    pub documentation: Option<Seq<char>>,
}

pub open spec fn opt_chars(o: Option<String>) -> Option<Seq<char>> {
    match o {
        Some(s) => Some(s@),
        None => None,
    }
}

impl View for CompletionItem {
    type V = CompletionItemView;

    open spec fn view(&self) -> CompletionItemView {
        CompletionItemView {
            label: string_bytes(self.label),
            kind: self.kind,
            detail: self.detail@,
            documentation: opt_chars(self.documentation),
        }
    }
}

pub open spec fn item_views(s: Seq<CompletionItem>) -> Seq<CompletionItemView> {
    s.map_values(|i: CompletionItem| i@)
}

/// Items are ordered and told apart by their lowercased label.
pub open spec fn item_key(v: CompletionItemView) -> Seq<u8> {
    lower_seq(v.label)
}

/// Items in strictly increasing order of their keys.
pub open spec fn sorted_items(s: Seq<CompletionItemView>) -> bool {
    forall|i: int, j: int| 0 <= i < j < s.len() ==> bytes_less(item_key(#[trigger] s[i]), item_key(#[trigger] s[j]))
}

/// Some item has the key.
pub open spec fn has_key(s: Seq<CompletionItemView>, key: Seq<u8>) -> bool {
    exists|i: int| 0 <= i < s.len() && #[trigger] item_key(s[i]) == key
}

/// The item that offers a declaration: its name, kind, signature and documentation.
pub open spec fn declaration_item(ws: WorkspaceIndex, d: DeclRef) -> CompletionItemView {
    let decl = ws.decl(d);
    CompletionItemView {
        label: string_bytes(decl.name),
        kind: completion_kind_spec(decl.kind),
        detail: signature_spec(decl),
        documentation: opt_chars(decl.documentation),
    }
}

/// The first `k` references, each kept only if no earlier one has its name.
pub open spec fn dedup_refs(ws: WorkspaceIndex, refs: Seq<DeclRef>, k: int) -> Seq<DeclRef>
    decreases k,
{
    if k <= 0 || k > refs.len() {
        Seq::empty()
    } else {
        dedup_refs(ws, refs, k - 1) + if first_of_name(ws, refs, k - 1) {
            seq![refs[k - 1]]
        } else {
            Seq::empty()
        }
    }
}

/// The items of the declarations, the first of each name.
pub open spec fn dedup_items(ws: WorkspaceIndex, refs: Seq<DeclRef>) -> Seq<CompletionItemView> {
    dedup_refs(ws, refs, refs.len() as int).map_values(|d: DeclRef| declaration_item(ws, d))
}

/// The name of a primitive type, by its position in `Bool`, `Float`, `Int`, `String`, `Var`.
pub open spec fn primitive_label(i: int) -> Seq<u8> {
    if i == 0 {
        "Bool".spec_bytes()
    } else if i == 1 {
        "Float".spec_bytes()
    } else if i == 2 {
        "Int".spec_bytes()
    } else if i == 3 {
        "String".spec_bytes()
    } else {
        "Var".spec_bytes()
    }
}

pub open spec fn primitive_item(i: int) -> CompletionItemView {
    CompletionItemView {
        label: primitive_label(i),
        kind: CompletionKind::TypeParameter,
        detail: "Papyrus primitive type"@,
        documentation: None,
    }
}

/// The items with the first `k` primitive types added whose name no item has.
pub open spec fn with_primitives(items: Seq<CompletionItemView>, k: int) -> Seq<CompletionItemView>
    decreases k,
{
    if k <= 0 {
        items
    } else {
        let prev = with_primitives(items, k - 1);
        if has_key(prev, lower_seq(primitive_label(k - 1))) {
            prev
        } else {
            prev.push(primitive_item(k - 1))
        }
    }
}

/// `out` holds the items of `input`, in order of their keys.
pub open spec fn sorted_items_of(out: Seq<CompletionItemView>, input: Seq<CompletionItemView>) -> bool {
    &&& sorted_items(out)
    &&& forall|x: CompletionItemView| #[trigger] out.contains(x) <==> input.contains(x)
}

pub proof fn lemma_same_ignoring_case_lower(a: Seq<u8>, b: Seq<u8>)
    ensures
        same_ignoring_case(a, b) <==> lower_seq(a) == lower_seq(b),
{
    assert(lower_seq(a).len() == a.len() && lower_seq(b).len() == b.len());
    if lower_seq(a) == lower_seq(b) {
        assert forall|i: int| 0 <= i < a.len() implies crate::text::lower(#[trigger] a[i]) == crate::text::lower(b[i]) by {
            assert(lower_seq(a)[i] == lower_seq(b)[i]);
        }
    }
    if same_ignoring_case(a, b) {
        assert(lower_seq(a) =~= lower_seq(b));
    }
}

proof fn lemma_has_key_same_items(a: Seq<CompletionItemView>, b: Seq<CompletionItemView>, key: Seq<u8>)
    requires
        forall|x: CompletionItemView| #[trigger] a.contains(x) <==> b.contains(x),
    ensures
        has_key(a, key) <==> has_key(b, key),
{
    if has_key(a, key) {
        let i = choose|i: int| 0 <= i < a.len() && #[trigger] item_key(a[i]) == key;
        assert(a.contains(a[i]));
        let j = choose|j: int| 0 <= j < b.len() && b[j] == a[i];
        assert(item_key(b[j]) == key);
    }
    if has_key(b, key) {
        let i = choose|i: int| 0 <= i < b.len() && #[trigger] item_key(b[i]) == key;
        assert(b.contains(b[i]));
        assert(a.contains(b[i]));
        let j = choose|j: int| 0 <= j < a.len() && a[j] == b[i];
        assert(item_key(a[j]) == key);
    }
}

/// Every kept reference is one of the first `k`.
proof fn lemma_dedup_from_prefix(ws: WorkspaceIndex, refs: Seq<DeclRef>, k: int)
    ensures
        forall|t: int| 0 <= t < dedup_refs(ws, refs, k).len() ==> exists|u: int| 0 <= u < k && u < refs.len() && refs[u] == #[trigger] dedup_refs(ws, refs, k)[t],
    decreases k,
{
    if k > 0 && k <= refs.len() {
        lemma_dedup_from_prefix(ws, refs, k - 1);
        let prev = dedup_refs(ws, refs, k - 1);
        assert forall|t: int| 0 <= t < dedup_refs(ws, refs, k).len() implies exists|u: int| 0 <= u < k && u < refs.len() && refs[u] == #[trigger] dedup_refs(ws, refs, k)[t] by {
            if t < prev.len() {
                assert(dedup_refs(ws, refs, k)[t] == prev[t]);
                let u = choose|u: int| 0 <= u < k - 1 && u < refs.len() && refs[u] == #[trigger] prev[t];
                assert(refs[u] == dedup_refs(ws, refs, k)[t]);
            } else {
                assert(dedup_refs(ws, refs, k)[t] == refs[k - 1]);
            }
        }
    }
}

fn item_key_of(item: &CompletionItem) -> (r: Vec<u8>)
    ensures
        r@ == item_key(item@),
{
    let b = item.label.as_str().as_bytes();
    let r = crate::text::lowercase_range(b, 0, b.len());
    assert(b@.subrange(0, b@.len() as int) =~= b@);
    r
}

/// Adds an item whose key no item has, in order.
fn insert_item(out: &mut Vec<CompletionItem>, item: CompletionItem)
    requires
        sorted_items(item_views(old(out)@)),
        !has_key(item_views(old(out)@), item_key(item@)),
    ensures
        sorted_items(item_views(final(out)@)),
        forall|x: CompletionItemView| #[trigger] item_views(final(out)@).contains(x) <==> (item_views(
            old(out)@,
        ).contains(x) || x == item@),
{
    let ghost before = item_views(out@);
    let ghost iv = item@;
    let key = item_key_of(&item);
    let mut i: usize = 0;
    while i < out.len() && crate::issue_sort::less_slices(item_key_of(&out[i]).as_slice(), key.as_slice()) < 0
        invariant
            0 <= i <= out@.len(),
            item_views(out@) == before,
            key@ == item_key(iv),
            sorted_items(before),
            forall|t: int| 0 <= t < i ==> bytes_less(item_key(#[trigger] before[t]), key@),
        decreases out@.len() - i,
    {
        i = i + 1;
    }
    proof {
        if i < before.len() {
            assert(before[i as int] == out@[i as int]@);
            assert(!bytes_less(item_key(before[i as int]), key@));
            if item_key(before[i as int]) == key@ {
                assert(has_key(before, item_key(iv)));
            }
            crate::issue_sort::lemma_bytes_less_total(item_key(before[i as int]), key@);
        }
    }
    out.insert(i, item);
    proof {
        let after = item_views(out@);
        assert(after =~= before.insert(i as int, iv));
        assert forall|a: int, b: int| 0 <= a < b < after.len() implies bytes_less(
            item_key(#[trigger] after[a]),
            item_key(#[trigger] after[b]),
        ) by {
            if b < i {
            } else if a < i && b == i {
            } else if a < i {
                assert(after[b] == before[b - 1]);
                if b - 1 > i {
                    crate::issue_sort::lemma_bytes_less_transitive(key@, item_key(before[i as int]), item_key(before[b - 1]));
                }
                crate::issue_sort::lemma_bytes_less_transitive(item_key(before[a]), key@, item_key(after[b]));
            } else if a == i {
                assert(after[b] == before[b - 1]);
                if b - 1 > i {
                    crate::issue_sort::lemma_bytes_less_transitive(key@, item_key(before[i as int]), item_key(before[b - 1]));
                }
            } else {
                assert(after[a] == before[a - 1]);
                assert(after[b] == before[b - 1]);
            }
        }
        assert forall|x: CompletionItemView| #[trigger] after.contains(x) <==> (before.contains(x) || x == iv) by {
            if after.contains(x) {
                let t = choose|t: int| 0 <= t < after.len() && after[t] == x;
                if t < i {
                    assert(before[t] == x);
                } else if t > i {
                    assert(before[t - 1] == x);
                }
            }
            if before.contains(x) {
                let t = choose|t: int| 0 <= t < before.len() && before[t] == x;
                if t < i {
                    assert(after[t] == x);
                } else {
                    assert(after[t + 1] == x);
                }
            }
            if x == iv {
                assert(after[i as int] == x);
            }
        }
    }
}

/// The access among the first `k` whose completion range holds `offset`:
/// the first of the narrowest; -1 when none does.
pub open spec fn narrowest_access(acc: Seq<SemanticMemberAccess>, offset: int, k: int) -> int
    decreases k,
{
    if k <= 0 || k > acc.len() {
        -1
    } else {
        let prev = narrowest_access(acc, offset, k - 1);
        let a = acc[k - 1];
        if a.completion_range.start <= offset <= a.completion_range.end && (prev < 0 || access_span(a) < access_span(
            acc[prev],
        )) {
            k - 1
        } else {
            prev
        }
    }
}

pub open spec fn access_span(a: SemanticMemberAccess) -> int {
    if a.completion_range.end >= a.completion_range.start {
        a.completion_range.end - a.completion_range.start
    } else {
        0
    }
}

/// What completion offers where no member access is completed: the
/// declarations whose scope holds the offset or that are top-level, the
/// members of the document's script, the structs and global functions of
/// its imports, and the scripts.
pub open spec fn open_candidates(ws: WorkspaceIndex, cur: int, offset: usize) -> Seq<DeclRef> {
    let doc = ws.documents@[cur].semantic;
    selected(ws, cur, FilterSpec::Visible(offset)) + (match doc.script_name {
        Some(n) => match unique_script_spec(ws, string_bytes(n)) {
            Resolution::Resolved(s) => script_members(ws, s),
            _ => Seq::empty(),
        },
        None => Seq::empty(),
    }) + imported_completions(ws, cur, doc.imports@.len() as int) + unique_scripts_spec(ws)
}

/// The items completion offers at a position: after a member access, the
/// members of its receiver that are not constants; elsewhere the open
/// candidates and the primitive types that no candidate names.
pub open spec fn completion_spec(ws: WorkspaceIndex, cur: int, p: Position) -> Seq<CompletionItemView> {
    let doc = ws.documents@[cur].semantic;
    let b = string_bytes(doc.text);
    let offset = byte_offset_spec(line_starts_of(b), b, p);
    let acc = doc.member_accesses@;
    let a = narrowest_access(acc, offset, acc.len() as int);
    if a >= 0 {
        let members = expression_members_spec(ws, cur, acc[a].receiver);
        dedup_items(ws, instance_candidates(ws, members, members.len() as int))
    } else {
        let cands = open_candidates(ws, cur, offset as usize);
        with_primitives(dedup_items(ws, cands), 5)
    }
}

fn narrowest_access_at(acc: &Vec<SemanticMemberAccess>, offset: usize) -> (r: Option<usize>)
    ensures
        match r {
            Some(k) => k as int == narrowest_access(acc@, offset as int, acc@.len() as int) && k < acc@.len(),
            None => narrowest_access(acc@, offset as int, acc@.len() as int) < 0,
        },
{
    let mut best: Option<usize> = None;
    let mut k: usize = 0;
    while k < acc.len()
        invariant
            0 <= k <= acc@.len(),
            match best {
                Some(b) => b as int == narrowest_access(acc@, offset as int, k as int) && b < k,
                None => narrowest_access(acc@, offset as int, k as int) < 0,
            },
        decreases acc@.len() - k,
    {
        if acc[k].contains_offset(offset) {
            match best {
                Some(b) => {
                    if acc[k].span() < acc[b].span() {
                        best = Some(k);
                    }
                },
                None => {
                    best = Some(k);
                },
            }
        }
        k = k + 1;
    }
    best
}

fn primitive_label_text(i: usize) -> (r: &'static str)
    requires
        i < 5,
    ensures
        r.spec_bytes() == primitive_label(i as int),
{
    if i == 0 {
        "Bool"
    } else if i == 1 {
        "Float"
    } else if i == 2 {
        "Int"
    } else if i == 3 {
        "String"
    } else {
        "Var"
    }
}

fn has_label(out: &Vec<CompletionItem>, key: &Vec<u8>) -> (r: bool)
    ensures
        r == has_key(item_views(out@), key@),
{
    let mut j: usize = 0;
    while j < out.len()
        invariant
            0 <= j <= out@.len(),
            forall|t: int| 0 <= t < j ==> item_key(#[trigger] item_views(out@)[t]) != key@,
        decreases out@.len() - j,
    {
        let k = item_key_of(&out[j]);
        if crate::text::bytes_equal(k.as_slice(), key.as_slice()) {
            assert(item_key(item_views(out@)[j as int]) == key@);
            return true;
        }
        j = j + 1;
    }
    false
}

proof fn lemma_contains_push(a: Seq<CompletionItemView>, y: CompletionItemView, x: CompletionItemView)
    ensures
        a.push(y).contains(x) <==> (a.contains(x) || x == y),
{
    if a.contains(x) {
        let i = choose|i: int| 0 <= i < a.len() && a[i] == x;
        assert(a.push(y)[i] == x);
    }
    if x == y {
        assert(a.push(y)[a.len() as int] == x);
    }
    if a.push(y).contains(x) {
        let i = choose|i: int| 0 <= i < a.push(y).len() && a.push(y)[i] == x;
        if i < a.len() {
            assert(a[i] == x);
        }
    }
}

impl WorkspaceIndex {
    /// The item that offers a declaration.
    fn declaration_item_exec(&self, d: DeclRef) -> (r: CompletionItem)
        requires
            self.valid_ref(d),
        ensures
            r@ == declaration_item(*self, d),
    {
        let decl = &self.documents[d.document].semantic.declarations[d.declaration];
        CompletionItem {
            label: decl.name.clone(),
            kind: completion_kind(decl.kind),
            detail: decl.signature(),
            documentation: decl.documentation.clone(),
        }
    }

    /// The items of declarations, the first of each name, in order of their
    /// lowercased labels (`deduplicated_completion_items`).
    pub fn deduplicated_completion_items(&self, refs: &Vec<DeclRef>) -> (r: Vec<CompletionItem>)
        requires
            self.valid_refs(refs@),
        ensures
            sorted_items_of(item_views(r@), dedup_items(*self, refs@)),
    {
        let mut out: Vec<CompletionItem> = Vec::new();
        let mut i: usize = 0;
        assert(item_views(out@) =~= Seq::<CompletionItemView>::empty());
        while i < refs.len()
            invariant
                self.valid_refs(refs@),
                0 <= i <= refs@.len(),
                sorted_items(item_views(out@)),
                forall|x: CompletionItemView| #[trigger] item_views(out@).contains(x) <==> dedup_refs(
                    *self,
                    refs@,
                    i as int,
                ).map_values(|d: DeclRef| declaration_item(*self, d)).contains(x),
            decreases refs@.len() - i,
        {
            let name = &self.documents[refs[i].document].semantic.declarations[refs[i].declaration].name;
            assert(self.valid_ref(refs@[i as int]));
            let mut first = true;
            let mut t: usize = 0;
            while t < i
                invariant
                    0 <= t <= i < refs@.len(),
                    self.valid_refs(refs@),
                    name == self.decl(refs@[i as int]).name,
                    first == (forall|u: int| 0 <= u < t ==> !same_ignoring_case(
                        string_bytes(#[trigger] self.decl(refs@[u]).name),
                        string_bytes(*name),
                    )),
                decreases i - t,
            {
                assert(self.valid_ref(refs@[t as int]));
                let m = crate::semantic::strings_match(
                    &self.documents[refs[t].document].semantic.declarations[refs[t].declaration].name,
                    name,
                );
                assert(m == same_ignoring_case(string_bytes(self.decl(refs@[t as int]).name), string_bytes(*name)));
                first = first && !m;
                t = t + 1;
            }
            let ghost f = |d: DeclRef| declaration_item(*self, d);
            let ghost prev = dedup_refs(*self, refs@, i as int);
            assert(first == first_of_name(*self, refs@, i as int));
            if first {
                let item = self.declaration_item_exec(refs[i]);
                proof {
                    if has_key(item_views(out@), item_key(item@)) {
                        let j = choose|j: int| 0 <= j < item_views(out@).len() && #[trigger] item_key(item_views(out@)[j]) == item_key(item@);
                        let x = item_views(out@)[j];
                        assert(item_views(out@).contains(x));
                        let s = prev.map_values(f);
                        let t2 = choose|t2: int| 0 <= t2 < s.len() && s[t2] == x;
                        lemma_dedup_from_prefix(*self, refs@, i as int);
                        assert(prev[t2] == prev[t2]);
                        let u = choose|u: int| 0 <= u < i && u < refs@.len() && refs@[u] == #[trigger] prev[t2];
                        assert(x == declaration_item(*self, refs@[u]));
                        lemma_same_ignoring_case_lower(
                            string_bytes(self.decl(refs@[u]).name),
                            string_bytes(self.decl(refs@[i as int]).name),
                        );
                        assert(!same_ignoring_case(
                            string_bytes(self.decl(refs@[u]).name),
                            string_bytes(self.decl(refs@[i as int]).name),
                        ));
                    }
                }
                let ghost iv = item@;
                insert_item(&mut out, item);
                proof {
                    assert(dedup_refs(*self, refs@, i + 1).map_values(f) =~= prev.map_values(f).push(iv));
                    assert forall|x: CompletionItemView| #[trigger] item_views(out@).contains(x) <==> dedup_refs(
                        *self,
                        refs@,
                        i + 1,
                    ).map_values(f).contains(x) by {
                        lemma_contains_push(prev.map_values(f), iv, x);
                    }
                }
            } else {
                assert(dedup_refs(*self, refs@, i + 1) =~= prev);
            }
            i = i + 1;
        }
        out
    }

    /// The items completion offers at a position of the document at `cur`,
    /// each label once, in order of the lowercased labels (`completion`).
    pub fn completion(&self, cur: usize, p: Position) -> (r: Vec<CompletionItem>)
        requires
            cur < self.documents@.len(),
        ensures
            sorted_items_of(item_views(r@), completion_spec(*self, cur as int, p)),
    {
        let doc = &self.documents[cur].semantic;
        let text = doc.text.as_str();
        let offset = LineIndex::new(text).byte_offset(text, p);
        match narrowest_access_at(&doc.member_accesses, offset) {
            Some(k) => {
                let members = self.members_for_expression(cur, &doc.member_accesses[k].receiver);
                let mut cands: Vec<DeclRef> = Vec::new();
                let mut i: usize = 0;
                while i < members.len()
                    invariant
                        self.valid_refs(members@),
                        0 <= i <= members@.len(),
                        cands@ == instance_candidates(*self, members@, i as int),
                        self.valid_refs(cands@),
                    decreases members@.len() - i,
                {
                    assert(self.valid_ref(members@[i as int]));
                    let decl = &self.documents[members[i].document].semantic.declarations[members[i].declaration];
                    if crate::names::is_instance_completion_candidate(decl) {
                        cands.push(members[i]);
                    }
                    assert(cands@ =~= instance_candidates(*self, members@, i + 1));
                    i = i + 1;
                }
                self.deduplicated_completion_items(&cands)
            },
            None => {
                let cands = self.open_completion_candidates(cur, offset);
                let mut out = self.deduplicated_completion_items(&cands);
                let ghost base = dedup_items(*self, cands@);
                let mut k: usize = 0;
                while k < 5
                    invariant
                        0 <= k <= 5,
                        sorted_items(item_views(out@)),
                        forall|x: CompletionItemView| #[trigger] item_views(out@).contains(x) <==> with_primitives(
                            base,
                            k as int,
                        ).contains(x),
                    decreases 5 - k,
                {
                    let name = primitive_label_text(k);
                    let nb = name.as_bytes();
                    let key = crate::text::lowercase_range(nb, 0, nb.len());
                    assert(nb@.subrange(0, nb@.len() as int) =~= nb@);
                    proof {
                        lemma_has_key_same_items(item_views(out@), with_primitives(base, k as int), key@);
                    }
                    if !has_label(&out, &key) {
                        let item = CompletionItem {
                            label: crate::text::owned(name),
                            kind: CompletionKind::TypeParameter,
                            detail: String::from_str("Papyrus primitive type"),
                            documentation: None,
                        };
                        let ghost iv = item@;
                        assert(iv == primitive_item(k as int));
                        insert_item(&mut out, item);
                        proof {
                            assert forall|x: CompletionItemView| #[trigger] item_views(out@).contains(x)
                                <==> with_primitives(base, k + 1).contains(x) by {
                                lemma_contains_push(with_primitives(base, k as int), iv, x);
                            }
                        }
                    }
                    k = k + 1;
                }
                out
            },
        }
    }

    /// The open candidates at an offset of the document at `cur`.
    fn open_completion_candidates(&self, cur: usize, offset: usize) -> (r: Vec<DeclRef>)
        requires
            cur < self.documents@.len(),
        ensures
            r@ == open_candidates(*self, cur as int, offset),
            self.valid_refs(r@),
    {
        let doc = &self.documents[cur].semantic;
        let mut cands = self.select_declarations(cur, &DeclFilter::Visible(offset));
        let ghost local = cands@;
        let mut inherited: Vec<DeclRef> = match &doc.script_name {
            Some(n) => match self.unique_script_outcome(n.as_str().as_bytes()) {
                Resolution::Resolved(s) => self.members_of(s),
                _ => Vec::new(),
            },
            None => Vec::new(),
        };
        let ghost inh = inherited@;
        cands.append(&mut inherited);
        let mut imported: Vec<DeclRef> = Vec::new();
        let imports = &doc.imports;
        let mut k: usize = 0;
        assert(imported@ =~= imported_completions(*self, cur as int, 0));
        while k < imports.len()
            invariant
                cur < self.documents@.len(),
                imports@ == self.documents@[cur as int].semantic.imports@,
                0 <= k <= imports@.len(),
                imported@ == imported_completions(*self, cur as int, k as int),
                self.valid_refs(imported@),
            decreases imports@.len() - k,
        {
            match self.unique_script_outcome(imports[k].as_str().as_bytes()) {
                Resolution::Resolved(d) => {
                    let mut found = self.select_declarations(d.document, &DeclFilter::Importable);
                    let ghost before = imported@;
                    let ghost more = found@;
                    imported.append(&mut found);
                    assert(imported@ =~= imported_completions(*self, cur as int, k + 1));
                    assert forall|j: int| 0 <= j < imported@.len() implies self.valid_ref(#[trigger] imported@[j]) by {
                        if j < before.len() {
                            assert(imported@[j] == before[j]);
                        } else {
                            assert(imported@[j] == more[j - before.len()]);
                        }
                    }
                },
                _ => {
                    assert(imported@ =~= imported_completions(*self, cur as int, k + 1));
                },
            }
            k = k + 1;
        }
        let ghost imp = imported@;
        cands.append(&mut imported);
        let mut scripts = self.unique_scripts();
        let ghost scr = scripts@;
        cands.append(&mut scripts);
        assert(cands@ =~= local + inh + imp + scr);
        assert forall|j: int| 0 <= j < cands@.len() implies self.valid_ref(#[trigger] cands@[j]) by {
            if j < local.len() {
                assert(cands@[j] == local[j]);
            } else if j < local.len() + inh.len() {
                assert(cands@[j] == inh[j - local.len()]);
            } else if j < local.len() + inh.len() + imp.len() {
                assert(cands@[j] == imp[j - local.len() - inh.len()]);
            } else {
                assert(cands@[j] == scr[j - local.len() - inh.len() - imp.len()]);
            }
        }
        cands
    }
}

} // verus!
