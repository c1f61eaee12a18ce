//! The workspace index: the semantic documents of every indexed source, and
//! the name lookups that navigation, completion, inference and validation
//! share: scripts by name, inherited members, imported declarations and
//! struct types.
//!
//! Declarations are referred to by their position: the document's index in
//! the workspace and the declaration's index in that document.
use vstd::prelude::*;
use vstd::string::StringSliceAdditionalSpecFns;
use crate::inference::Resolution;
use crate::semantic::{
    Declaration, DeclarationKind, SemanticCallSite, SemanticMemberAccess, SemanticOccurrence, SemanticTypeCheck,
};
use crate::text::{
    lower, lower_byte, lower_seq, same_ignoring_case, str_equal_ignoring_case, string_bytes,
};

verus! {

/// The semantic content of one document.
pub struct SemanticDocument {
    pub uri: String,
    pub text: String,
    pub script_name: Option<String>,
    pub parent_script: Option<String>,
    pub imports: Vec<String>,
    pub declarations: Vec<Declaration>,
    pub occurrences: Vec<SemanticOccurrence>,
    pub call_sites: Vec<SemanticCallSite>,
    pub member_accesses: Vec<SemanticMemberAccess>,
    pub type_checks: Vec<SemanticTypeCheck>,
    pub symbols: Vec<crate::symbols::DocumentSymbol>,
}

/// An indexed document: where it comes from, its priority (lower wins when
/// scripts share a name) and the hash of its normalized content.
pub struct IndexedDocument {
    pub path: Option<String>,
    pub priority: u8,
    pub semantic: SemanticDocument,
    pub content_hash: Vec<u8>,
}

/// The indexed documents of a workspace.
pub struct WorkspaceIndex {
    pub documents: Vec<IndexedDocument>,
}

/// A declaration, by the index of its document and its index there.
#[derive(Clone, Copy, Debug, PartialEq, Eq, Structural)]
pub struct DeclRef {
    pub document: usize,
    pub declaration: usize,
}

/// A declaration named `name`, without regard to case.
pub open spec fn named(d: Declaration, name: Seq<u8>) -> bool {
    same_ignoring_case(string_bytes(d.name), name)
}

/// An optional text equal to `name` without regard to case.
pub open spec fn opt_named(o: Option<String>, name: Seq<u8>) -> bool {
    o matches Some(s) && same_ignoring_case(string_bytes(s), name)
}

impl WorkspaceIndex {
    pub open spec fn declarations(self, i: int) -> Seq<Declaration> {
        self.documents@[i].semantic.declarations@
    }

    pub open spec fn decl(self, r: DeclRef) -> Declaration {
        self.declarations(r.document as int)[r.declaration as int]
    }

    pub open spec fn valid_ref(self, r: DeclRef) -> bool {
        r.document < self.documents@.len() && r.declaration < self.declarations(r.document as int).len()
    }

    pub open spec fn valid_refs(self, rs: Seq<DeclRef>) -> bool {
        forall|k: int| 0 <= k < rs.len() ==> self.valid_ref(#[trigger] rs[k])
    }
}

/// The first declaration at or after `i` that is a script named `name`.
pub open spec fn first_script_decl(ds: Seq<Declaration>, name: Seq<u8>, i: int) -> int
    decreases ds.len() - i,
{
    if i < 0 || i >= ds.len() {
        ds.len() as int
    } else if ds[i].kind == DeclarationKind::Script && named(ds[i], name) {
        i
    } else {
        first_script_decl(ds, name, i + 1)
    }
}

/// A document that declares the script `name`: its script name is `name`
/// and it has a script declaration of that name.
pub open spec fn script_candidate(ws: WorkspaceIndex, i: int, name: Seq<u8>) -> bool {
    &&& opt_named(ws.documents@[i].semantic.script_name, name)
    &&& first_script_decl(ws.declarations(i), name, 0) < ws.declarations(i).len()
}

/// The lowest priority of the candidates among the first `k` documents.
pub open spec fn min_priority(ws: WorkspaceIndex, name: Seq<u8>, k: int) -> Option<u8>
    decreases k,
{
    if k <= 0 {
        None
    } else {
        let rest = min_priority(ws, name, k - 1);
        if script_candidate(ws, k - 1, name) {
            let p = ws.documents@[k - 1].priority;
            match rest {
                Some(q) => if p < q {
                    Some(p)
                } else {
                    Some(q)
                },
                None => Some(p),
            }
        } else {
            rest
        }
    }
}

/// A candidate of the lowest priority.
pub open spec fn retained(ws: WorkspaceIndex, i: int, name: Seq<u8>, p: u8) -> bool {
    script_candidate(ws, i, name) && ws.documents@[i].priority == p
}

/// The first retained candidate at or after `i`.
pub open spec fn first_retained(ws: WorkspaceIndex, name: Seq<u8>, p: u8, i: int) -> int
    decreases ws.documents@.len() - i,
{
    if i < 0 || i >= ws.documents@.len() {
        ws.documents@.len() as int
    } else if retained(ws, i, name, p) {
        i
    } else {
        first_retained(ws, name, p, i + 1)
    }
}

/// Byte strings in lexicographic order.
pub open spec fn bytes_less(a: Seq<u8>, b: Seq<u8>) -> bool
    decreases a.len(),
{
    if a.len() == 0 {
        b.len() > 0
    } else if b.len() == 0 {
        false
    } else if a[0] != b[0] {
        a[0] < b[0]
    } else {
        bytes_less(a.drop_first(), b.drop_first())
    }
}

/// Whether text contains `/staging/`.
pub open spec fn has_staging(t: Seq<u8>) -> bool {
    exists|i: int| 0 <= i && i + 9 <= t.len() && #[trigger] t.subrange(i, i + 9) == seq![
        47u8,
        115u8,
        116u8,
        97u8,
        103u8,
        105u8,
        110u8,
        103u8,
        47u8,
    ]
}

/// The text that orders documents of the same script: the path with `/`
/// separators, else the URI, in lowercase.
pub open spec fn key_text(d: IndexedDocument) -> Seq<u8> {
    match d.path {
        Some(p) => lower_seq(crate::text::replace_bytes(string_bytes(p), 92, 47)),
        None => lower_seq(string_bytes(d.semantic.uri)),
    }
}

/// Documents outside staging directories first, then by key text.
pub open spec fn key_less(a: IndexedDocument, b: IndexedDocument) -> bool {
    let sa = has_staging(key_text(a));
    let sb = has_staging(key_text(b));
    (!sa && sb) || (sa == sb && bytes_less(key_text(a), key_text(b)))
}

/// The retained candidate among the first `k` documents that comes first by
/// key, the earliest one when keys tie.
pub open spec fn best_candidate(ws: WorkspaceIndex, name: Seq<u8>, p: u8, k: int) -> Option<int>
    decreases k,
{
    if k <= 0 {
        None
    } else {
        let rest = best_candidate(ws, name, p, k - 1);
        if retained(ws, k - 1, name, p) {
            match rest {
                Some(b) => if key_less(ws.documents@[k - 1], ws.documents@[b]) {
                    Some(k - 1)
                } else {
                    Some(b)
                },
                None => Some(k - 1),
            }
        } else {
            rest
        }
    }
}

/// The script named `name`: missing without candidates, ambiguous when the
/// candidates of the lowest priority differ in content, else the one that
/// comes first by key.
pub open spec fn unique_script_spec(ws: WorkspaceIndex, name: Seq<u8>) -> Resolution<DeclRef> {
    let n = ws.documents@.len() as int;
    match min_priority(ws, name, n) {
        None => Resolution::Missing,
        Some(p) => {
            let f = first_retained(ws, name, p, 0);
            if exists|i: int|
                0 <= i < n && retained(ws, i, name, p) && #[trigger] ws.documents@[i].content_hash@
                    != ws.documents@[f].content_hash@ {
                Resolution::Ambiguous
            } else {
                let b = best_candidate(ws, name, p, n).unwrap();
                Resolution::Resolved(
                    DeclRef {
                        document: b as usize,
                        declaration: first_script_decl(ws.declarations(b), name, 0) as usize,
                    },
                )
            }
        },
    }
}

fn script_decl_index(document: &IndexedDocument, name: &[u8]) -> (r: Option<usize>)
    ensures
        match r {
            Some(k) => opt_named(document.semantic.script_name, name@) && k
                == first_script_decl(document.semantic.declarations@, name@, 0) && k
                < document.semantic.declarations@.len(),
            None => !(opt_named(document.semantic.script_name, name@)
                && first_script_decl(document.semantic.declarations@, name@, 0)
                < document.semantic.declarations@.len()),
        },
{
    let matches_name = match &document.semantic.script_name {
        Some(s) => name_is(s, name),
        None => false,
    };
    if !matches_name {
        return None;
    }
    let ds = &document.semantic.declarations;
    let mut i: usize = 0;
    while i < ds.len() && !(ds[i].kind == DeclarationKind::Script && name_is(&ds[i].name, name))
        invariant
            0 <= i <= ds@.len(),
            first_script_decl(ds@, name@, i as int) == first_script_decl(
                ds@,
                name@,
                0,
            ),
        decreases ds@.len() - i,
    {
        i = i + 1;
    }
    if i < ds.len() {
        Some(i)
    } else {
        None
    }
}

/// The key text of a document.
fn key_bytes(d: &IndexedDocument) -> (r: Vec<u8>)
    ensures
        r@ == key_text(*d),
{
    let raw = match &d.path {
        Some(p) => crate::text::replaced_bytes(p.as_str().as_bytes(), 92, 47),
        None => crate::text::copy_range(d.semantic.uri.as_str().as_bytes(), 0, d.semantic.uri.as_str().as_bytes().len()),
    };
    proof {
        if d.path is None {
            let u = string_bytes(d.semantic.uri);
            assert(u.subrange(0, u.len() as int) =~= u);
        }
    }
    let out = crate::text::lowercase_range(raw.as_slice(), 0, raw.len());
    assert(raw@.subrange(0, raw@.len() as int) =~= raw@);
    out
}

fn contains_staging(t: &Vec<u8>) -> (r: bool)
    ensures
        r == has_staging(t@),
{
    let pattern: [u8; 9] = [47, 115, 116, 97, 103, 105, 110, 103, 47];
    let ghost expected = seq![47u8, 115u8, 116u8, 97u8, 103u8, 105u8, 110u8, 103u8, 47u8];
    assert(pattern@ =~= expected);
    if t.len() < 9 {
        return false;
    }
    let mut i: usize = 0;
    while i <= t.len() - 9
        invariant
            t@.len() >= 9,
            pattern@ == expected,
            expected == seq![47u8, 115u8, 116u8, 97u8, 103u8, 105u8, 110u8, 103u8, 47u8],
            0 <= i <= t@.len() - 8,
            forall|k: int| 0 <= k < i ==> #[trigger] t@.subrange(k, k + 9) != expected,
        decreases t@.len() - i,
    {
        let piece = crate::text::copy_range(t.as_slice(), i, i + 9);
        if crate::text::bytes_equal(piece.as_slice(), pattern.as_slice()) {
            assert(t@.subrange(i as int, i + 9) == expected);
            return true;
        }
        i = i + 1;
    }
    false
}

pub(crate) fn less_bytes(a: &Vec<u8>, b: &Vec<u8>) -> (r: bool)
    ensures
        r == bytes_less(a@, b@),
{
    let mut i: usize = 0;
    assert(a@.subrange(0, a@.len() as int) =~= a@);
    assert(b@.subrange(0, b@.len() as int) =~= b@);
    while i < a.len() && i < b.len() && a[i] == b[i]
        invariant
            0 <= i <= a@.len(),
            i <= b@.len(),
            bytes_less(a@, b@) == bytes_less(a@.subrange(i as int, a@.len() as int), b@.subrange(
                i as int,
                b@.len() as int,
            )),
        decreases a@.len() - i,
    {
        proof {
            let sa = a@.subrange(i as int, a@.len() as int);
            let sb = b@.subrange(i as int, b@.len() as int);
            assert(sa.drop_first() =~= a@.subrange(i + 1, a@.len() as int));
            assert(sb.drop_first() =~= b@.subrange(i + 1, b@.len() as int));
        }
        i = i + 1;
    }
    proof {
        let sa = a@.subrange(i as int, a@.len() as int);
        let sb = b@.subrange(i as int, b@.len() as int);
        if i < a.len() && i < b.len() {
            assert(sa[0] == a@[i as int] && sb[0] == b@[i as int]);
        }
    }
    if i == a.len() {
        i < b.len()
    } else if i == b.len() {
        false
    } else {
        a[i] < b[i]
    }
}

pub(crate) fn document_key_less(a: &IndexedDocument, b: &IndexedDocument) -> (r: bool)
    ensures
        r == key_less(*a, *b),
{
    let ka = key_bytes(a);
    let kb = key_bytes(b);
    let sa = contains_staging(&ka);
    let sb = contains_staging(&kb);
    (!sa && sb) || (sa == sb && less_bytes(&ka, &kb))
}

impl WorkspaceIndex {
    /// The script named `name` (`unique_script_outcome`).
    pub fn unique_script_outcome(&self, name: &[u8]) -> (r: Resolution<DeclRef>)
        ensures
            r == unique_script_spec(*self, name@),
            r matches Resolution::Resolved(d) ==> self.valid_ref(d),
    {
        let ghost nm = name@;
        let docs = &self.documents;
        let n = docs.len();
        let mut lowest: Option<u8> = None;
        let mut i: usize = 0;
        while i < n
            invariant
                n == docs@.len(),
                docs == &self.documents,
                nm == name@,
                0 <= i <= n,
                lowest == min_priority(*self, nm, i as int),
            decreases n - i,
        {
            match script_decl_index(&docs[i], name) {
                Some(_) => {
                    let p = docs[i].priority;
                    lowest = match lowest {
                        Some(q) => if p < q {
                            Some(p)
                        } else {
                            Some(q)
                        },
                        None => Some(p),
                    };
                },
                None => {},
            }
            i = i + 1;
        }
        let p = match lowest {
            Some(p) => p,
            None => return Resolution::Missing,
        };
        let mut f: usize = 0;
        while f < n && !(script_decl_index(&docs[f], name).is_some() && docs[f].priority == p)
            invariant
                n == docs@.len(),
                docs == &self.documents,
                nm == name@,
                0 <= f <= n,
                first_retained(*self, nm, p, f as int) == first_retained(*self, nm, p, 0),
            decreases n - f,
        {
            f = f + 1;
        }
        proof {
            let j = lemma_min_priority_witness(*self, nm, n as int);
            lemma_first_retained_bound(*self, nm, p, 0, j);
            lemma_first_retained_range(*self, nm, p, 0);
        }
        assert(f < n);
        let mut best: usize = f;
        let mut k: usize = 0;
        while k < n
            invariant
                n == docs@.len(),
                docs == &self.documents,
                nm == name@,
                0 <= k <= n,
                f < n,
                min_priority(*self, nm, n as int) == Some(p),
                f == first_retained(*self, nm, p, 0),
                retained(*self, f as int, nm, p),
                forall|j: int| 0 <= j < k && retained(*self, j, nm, p) ==> #[trigger] self.documents@[j].content_hash@
                    == self.documents@[f as int].content_hash@,
                k > f ==> best_candidate(*self, nm, p, k as int) == Some(best as int),
                k <= f ==> best_candidate(*self, nm, p, k as int) is None,
                best < n,
            decreases n - k,
        {
            let here = script_decl_index(&docs[k], name).is_some() && docs[k].priority == p;
            if here {
                if !crate::text::bytes_equal(docs[k].content_hash.as_slice(), docs[f].content_hash.as_slice()) {
                    assert(retained(*self, k as int, nm, p));
                    assert(self.documents@[k as int].content_hash@ != self.documents@[f as int].content_hash@);
                    return Resolution::Ambiguous;
                }
                if k > f && document_key_less(&docs[k], &docs[best]) {
                    best = k;
                } else if k == f {
                    best = k;
                }
            }
            proof {
                if k < f {
                    lemma_first_retained_skips(*self, nm, p, 0, k as int);
                }
            }
            k = k + 1;
        }
        let d = match script_decl_index(&docs[best], name) {
            Some(d) => d,
            None => {
                proof {
                    lemma_best_retained(*self, nm, p, n as int);
                    assert(false);
                }
                return Resolution::Missing;
            },
        };
        Resolution::Resolved(DeclRef { document: best, declaration: d })
    }
}

proof fn lemma_min_priority_witness(ws: WorkspaceIndex, name: Seq<u8>, k: int) -> (j: int)
    requires
        0 <= k <= ws.documents@.len(),
    ensures
        min_priority(ws, name, k) matches Some(p) ==> 0 <= j < k && retained(ws, j, name, p),
    decreases k,
{
    if k <= 0 {
        0
    } else {
        let w = lemma_min_priority_witness(ws, name, k - 1);
        if script_candidate(ws, k - 1, name) {
            let q = ws.documents@[k - 1].priority;
            match min_priority(ws, name, k - 1) {
                Some(r) => if q < r {
                    k - 1
                } else {
                    w
                },
                None => k - 1,
            }
        } else {
            w
        }
    }
}

proof fn lemma_first_retained_bound(ws: WorkspaceIndex, name: Seq<u8>, p: u8, i: int, j: int)
    requires
        0 <= i <= j < ws.documents@.len(),
        retained(ws, j, name, p),
    ensures
        first_retained(ws, name, p, i) <= j,
    decreases j - i,
{
    if i < j && !retained(ws, i, name, p) {
        lemma_first_retained_bound(ws, name, p, i + 1, j);
    }
}

proof fn lemma_first_retained_skips(ws: WorkspaceIndex, name: Seq<u8>, p: u8, i: int, k: int)
    requires
        0 <= i <= k < first_retained(ws, name, p, i),
        first_retained(ws, name, p, i) <= ws.documents@.len(),
    ensures
        !retained(ws, k, name, p),
    decreases k - i,
{
    if i < k {
        assert(!retained(ws, i, name, p));
        lemma_first_retained_skips(ws, name, p, i + 1, k);
    }
}

proof fn lemma_first_retained_range(ws: WorkspaceIndex, name: Seq<u8>, p: u8, i: int)
    requires
        0 <= i <= ws.documents@.len(),
    ensures
        i <= first_retained(ws, name, p, i) <= ws.documents@.len(),
        first_retained(ws, name, p, i) < ws.documents@.len() ==> retained(
            ws,
            first_retained(ws, name, p, i),
            name,
            p,
        ),
    decreases ws.documents@.len() - i,
{
    if i < ws.documents@.len() && !retained(ws, i, name, p) {
        lemma_first_retained_range(ws, name, p, i + 1);
    }
}

proof fn lemma_best_retained(ws: WorkspaceIndex, name: Seq<u8>, p: u8, k: int)
    requires
        0 <= k <= ws.documents@.len(),
        best_candidate(ws, name, p, k) matches Some(b),
    ensures
        best_candidate(ws, name, p, k) matches Some(b) && 0 <= b < k && retained(ws, b, name, p),
    decreases k,
{
    if k > 0 && best_candidate(ws, name, p, k - 1) is Some {
        lemma_best_retained(ws, name, p, k - 1);
    }
}

/// Which declarations of a document a lookup considers.
pub enum DeclFilter<'a> {
    /// Named so, inside a container whose scope holds the offset.
    Scoped(&'a [u8], usize),
    /// Named so, outside every container.
    TopLevel(&'a [u8]),
    /// A top-level struct named so.
    Structure(&'a [u8]),
    /// Inside the container named so.
    Container(&'a [u8]),
    /// Named so, and a struct or a global function.
    ImportedValue(&'a [u8]),
    /// Named so, and a struct.
    ImportedStructure(&'a [u8]),
    /// A global function of the script named so, outside every container.
    GlobalFunctionOf(&'a [u8]),
    /// Inside a container whose scope holds the offset, or outside every container.
    Visible(usize),
    /// A struct or a global function.
    Importable,
    /// A script declaration.
    ScriptDeclaration,
}

/// What a filter keeps, with its names as UTF-8 bytes.
pub enum FilterSpec {
    Scoped(Seq<u8>, usize),
    TopLevel(Seq<u8>),
    Structure(Seq<u8>),
    Container(Seq<u8>),
    ImportedValue(Seq<u8>),
    ImportedStructure(Seq<u8>),
    GlobalFunctionOf(Seq<u8>),
    Visible(usize),
    Importable,
    ScriptDeclaration,
}

impl<'a> View for DeclFilter<'a> {
    type V = FilterSpec;

    open spec fn view(&self) -> FilterSpec {
        match *self {
            DeclFilter::Scoped(name, offset) => FilterSpec::Scoped(name@, offset),
            DeclFilter::TopLevel(name) => FilterSpec::TopLevel(name@),
            DeclFilter::Structure(name) => FilterSpec::Structure(name@),
            DeclFilter::Container(name) => FilterSpec::Container(name@),
            DeclFilter::ImportedValue(name) => FilterSpec::ImportedValue(name@),
            DeclFilter::ImportedStructure(name) => FilterSpec::ImportedStructure(name@),
            DeclFilter::GlobalFunctionOf(name) => FilterSpec::GlobalFunctionOf(name@),
            DeclFilter::Visible(offset) => FilterSpec::Visible(offset),
            DeclFilter::Importable => FilterSpec::Importable,
            DeclFilter::ScriptDeclaration => FilterSpec::ScriptDeclaration,
        }
    }
}

pub open spec fn keeps(filter: FilterSpec, d: Declaration) -> bool {
    match filter {
        FilterSpec::Scoped(name, offset) => named(d, name) && d.scope.start <= offset < d.scope.end
            && d.container is Some,
        FilterSpec::TopLevel(name) => named(d, name) && d.container is None,
        FilterSpec::Structure(name) => d.kind == DeclarationKind::Struct && d.container is None
            && named(d, name),
        FilterSpec::Container(name) => opt_named(d.container, name),
        FilterSpec::ImportedValue(name) => named(d, name) && (d.kind == DeclarationKind::Struct || (
        d.kind == DeclarationKind::Function && d.is_global)),
        FilterSpec::ImportedStructure(name) => named(d, name) && d.kind == DeclarationKind::Struct,
        FilterSpec::GlobalFunctionOf(name) => d.kind == DeclarationKind::Function && d.is_global
            && d.container is None && opt_named(d.owner_script, name),
        FilterSpec::Visible(offset) => (d.scope.start <= offset < d.scope.end) || d.container is None,
        FilterSpec::Importable => d.kind == DeclarationKind::Struct || (d.kind == DeclarationKind::Function
            && d.is_global),
        FilterSpec::ScriptDeclaration => d.kind == DeclarationKind::Script,
    }
}

fn name_is(text: &String, name: &[u8]) -> (r: bool)
    ensures
        r == same_ignoring_case(string_bytes(*text), name@),
{
    crate::text::equal_ignoring_case(text.as_str().as_bytes(), name)
}

fn keeps_exec(filter: &DeclFilter, d: &Declaration) -> (r: bool)
    ensures
        r == keeps(filter@, *d),
{
    match filter {
        DeclFilter::Scoped(name, offset) => name_is(&d.name, name) && d.scope.start <= *offset
            && *offset < d.scope.end && d.container.is_some(),
        DeclFilter::TopLevel(name) => name_is(&d.name, name) && d.container.is_none(),
        DeclFilter::Structure(name) => d.kind == DeclarationKind::Struct && d.container.is_none()
            && name_is(&d.name, name),
        DeclFilter::Container(name) => match &d.container {
            Some(c) => name_is(c, name),
            None => false,
        },
        DeclFilter::ImportedValue(name) => name_is(&d.name, name) && (d.kind == DeclarationKind::Struct
            || (d.kind == DeclarationKind::Function && d.is_global)),
        DeclFilter::ImportedStructure(name) => name_is(&d.name, name) && d.kind
            == DeclarationKind::Struct,
        DeclFilter::GlobalFunctionOf(name) => d.kind == DeclarationKind::Function && d.is_global
            && d.container.is_none() && match &d.owner_script {
            Some(o) => name_is(o, name),
            None => false,
        },
        DeclFilter::Visible(offset) => (d.scope.start <= *offset && *offset < d.scope.end) || d.container.is_none(),
        DeclFilter::Importable => d.kind == DeclarationKind::Struct || (d.kind == DeclarationKind::Function
            && d.is_global),
        DeclFilter::ScriptDeclaration => d.kind == DeclarationKind::Script,
    }
}

/// The declarations among the first `k` of a document that a filter keeps.
pub open spec fn select(ws: WorkspaceIndex, doc: int, filter: FilterSpec, k: int) -> Seq<DeclRef>
    decreases k,
{
    if k <= 0 {
        Seq::empty()
    } else {
        let rest = select(ws, doc, filter, k - 1);
        if keeps(filter, ws.declarations(doc)[k - 1]) {
            rest.push(DeclRef { document: doc as usize, declaration: (k - 1) as usize })
        } else {
            rest
        }
    }
}

/// All the declarations of a document that a filter keeps, in order.
pub open spec fn selected(ws: WorkspaceIndex, doc: int, filter: FilterSpec) -> Seq<DeclRef> {
    select(ws, doc, filter, ws.declarations(doc).len() as int)
}

/// The references among the first `k` that name `name`.
pub open spec fn named_among(ws: WorkspaceIndex, refs: Seq<DeclRef>, name: Seq<u8>, k: int) -> Seq<
    DeclRef,
>
    decreases k,
{
    if k <= 0 {
        Seq::empty()
    } else {
        let rest = named_among(ws, refs, name, k - 1);
        if named(ws.decl(refs[k - 1]), name) {
            rest.push(refs[k - 1])
        } else {
            rest
        }
    }
}

/// One declaration named `name` among the references, none, or several.
pub open spec fn named_outcome_spec(ws: WorkspaceIndex, refs: Seq<DeclRef>, name: Seq<u8>) -> Resolution<
    DeclRef,
> {
    let m = named_among(ws, refs, name, refs.len() as int);
    if m.len() == 0 {
        Resolution::Missing
    } else if m.len() == 1 {
        Resolution::Resolved(m[0])
    } else {
        Resolution::Ambiguous
    }
}

impl WorkspaceIndex {
    /// The declarations of a document that a filter keeps.
    pub fn select_declarations(&self, doc: usize, filter: &DeclFilter) -> (r: Vec<DeclRef>)
        requires
            doc < self.documents@.len(),
        ensures
            r@ == selected(*self, doc as int, filter@),
            self.valid_refs(r@),
    {
        let ds = &self.documents[doc].semantic.declarations;
        let mut out: Vec<DeclRef> = Vec::new();
        let mut i: usize = 0;
        while i < ds.len()
            invariant
                doc < self.documents@.len(),
                ds@ == self.declarations(doc as int),
                0 <= i <= ds@.len(),
                out@ == select(*self, doc as int, filter@, i as int),
                forall|k: int| 0 <= k < out@.len() ==> (#[trigger] out@[k]).document == doc && out@[k].declaration < i,
            decreases ds@.len() - i,
        {
            if keeps_exec(filter, &ds[i]) {
                out.push(DeclRef { document: doc, declaration: i });
            }
            i = i + 1;
        }
        out
    }

    /// One declaration named `name` among the references (`named_outcome`).
    pub fn named_outcome(&self, refs: &Vec<DeclRef>, name: &[u8]) -> (r: Resolution<DeclRef>)
        requires
            self.valid_refs(refs@),
        ensures
            r == named_outcome_spec(*self, refs@, name@),
    {
        let mut found: Option<DeclRef> = None;
        let mut count: usize = 0;
        let mut i: usize = 0;
        while i < refs.len()
            invariant
                self.valid_refs(refs@),
                0 <= i <= refs@.len(),
                count == if named_among(*self, refs@, name@, i as int).len() < 2 {
                    named_among(*self, refs@, name@, i as int).len()
                } else {
                    2
                },
                count >= 1 ==> found == Some(named_among(*self, refs@, name@, i as int)[0]),
            decreases refs@.len() - i,
        {
            let r = refs[i];
            assert(self.valid_ref(r));
            let d = &self.documents[r.document].semantic.declarations[r.declaration];
            if name_is(&d.name, name) {
                if count == 0 {
                    found = Some(r);
                }
                if count < 2 {
                    count = count + 1;
                }
            }
            proof {
                let m = named_among(*self, refs@, name@, i as int);
                let m2 = named_among(*self, refs@, name@, i + 1);
                if m.len() >= 1 {
                    assert(m2[0] == m[0]);
                }
            }
            i = i + 1;
        }
        if count == 0 {
            Resolution::Missing
        } else if count == 1 {
            match found {
                Some(r) => Resolution::Resolved(r),
                None => Resolution::Missing,
            }
        } else {
            Resolution::Ambiguous
        }
    }
}

/// A declaration that the script `owner` contributes as a member: owned by
/// it, outside every container, neither a script nor a parameter, and not
/// global.
pub open spec fn is_member_of(d: Declaration, owner: Seq<u8>) -> bool {
    &&& opt_named(d.owner_script, owner)
    &&& d.container is None
    &&& d.kind != DeclarationKind::Script
    &&& d.kind != DeclarationKind::Parameter
    &&& !d.is_global
}

/// Some reference names `name`.
pub open spec fn has_named(ws: WorkspaceIndex, acc: Seq<DeclRef>, name: Seq<u8>) -> bool {
    exists|k: int| 0 <= k < acc.len() && named(ws.decl(#[trigger] acc[k]), name)
}

/// `acc` extended by the members of `owner` among the first `k` declarations
/// of a document whose names no member before them has.
pub open spec fn add_members(
    ws: WorkspaceIndex,
    doc: int,
    owner: Seq<u8>,
    acc: Seq<DeclRef>,
    k: int,
) -> Seq<DeclRef>
    decreases k,
{
    if k <= 0 {
        acc
    } else {
        let rest = add_members(ws, doc, owner, acc, k - 1);
        let d = ws.declarations(doc)[k - 1];
        if is_member_of(d, owner) && !has_named(ws, rest, string_bytes(d.name)) {
            rest.push(DeclRef { document: doc as usize, declaration: (k - 1) as usize })
        } else {
            rest
        }
    }
}

/// The members of the script `name` and of its ancestors, nearest first,
/// each name once; unsupported when the chain repeats a script or leaves the
/// index, ambiguous when a script of the chain is. The chain visits a new
/// document at each step, so `fuel` set to the number of documents is never
/// the reason it stops.
pub open spec fn members_walk(
    ws: WorkspaceIndex,
    name: Seq<u8>,
    visited: Seq<Seq<u8>>,
    acc: Seq<DeclRef>,
    fuel: nat,
) -> Resolution<Seq<DeclRef>>
    decreases fuel,
{
    if fuel == 0 || visited.contains(lower_seq(name)) {
        Resolution::Unsupported
    } else {
        match unique_script_spec(ws, name) {
            Resolution::Resolved(d) => {
                let doc = d.document as int;
                let acc2 = add_members(ws, doc, name, acc, ws.declarations(doc).len() as int);
                match ws.documents@[doc].semantic.parent_script {
                    Some(p) => members_walk(
                        ws,
                        string_bytes(p),
                        visited.push(lower_seq(name)),
                        acc2,
                        (fuel - 1) as nat,
                    ),
                    None => Resolution::Resolved(acc2),
                }
            },
            Resolution::Ambiguous => Resolution::Ambiguous,
            _ => Resolution::Unsupported,
        }
    }
}

/// The members of a script (`members_of_outcome`).
pub open spec fn members_spec(ws: WorkspaceIndex, script: DeclRef) -> Resolution<Seq<DeclRef>> {
    members_walk(
        ws,
        string_bytes(ws.decl(script).name),
        Seq::empty(),
        Seq::empty(),
        ws.documents@.len() as nat,
    )
}

/// The content of a resolved list.
pub open spec fn list_view(r: Resolution<Vec<DeclRef>>) -> Resolution<Seq<DeclRef>> {
    match r {
        Resolution::Resolved(v) => Resolution::Resolved(v@),
        Resolution::Missing => Resolution::Missing,
        Resolution::Ambiguous => Resolution::Ambiguous,
        Resolution::Unsupported => Resolution::Unsupported,
    }
}

pub open spec fn byte_views(v: Seq<Vec<u8>>) -> Seq<Seq<u8>> {
    v.map_values(|x: Vec<u8>| x@)
}

pub(crate) fn seen_before(visited: &Vec<Vec<u8>>, name: &Vec<u8>) -> (r: bool)
    ensures
        r == byte_views(visited@).contains(name@),
{
    let mut i: usize = 0;
    while i < visited.len()
        invariant
            0 <= i <= visited@.len(),
            forall|k: int| 0 <= k < i ==> (#[trigger] byte_views(visited@)[k]) != name@,
        decreases visited@.len() - i,
    {
        if crate::text::bytes_equal(visited[i].as_slice(), name.as_slice()) {
            assert(byte_views(visited@)[i as int] == name@);
            return true;
        }
        i = i + 1;
    }
    false
}

impl WorkspaceIndex {
    pub(crate) fn has_named_exec(&self, acc: &Vec<DeclRef>, name: &[u8]) -> (r: bool)
        requires
            self.valid_refs(acc@),
        ensures
            r == has_named(*self, acc@, name@),
    {
        let mut i: usize = 0;
        while i < acc.len()
            invariant
                self.valid_refs(acc@),
                0 <= i <= acc@.len(),
                forall|k: int| 0 <= k < i ==> !named(self.decl(#[trigger] acc@[k]), name@),
            decreases acc@.len() - i,
        {
            let r = acc[i];
            assert(self.valid_ref(r));
            if name_is(&self.documents[r.document].semantic.declarations[r.declaration].name, name) {
                return true;
            }
            i = i + 1;
        }
        false
    }

    /// The members of a script and of its ancestors (`members_of_outcome`).
    pub fn members_of_outcome(&self, script: DeclRef) -> (r: Resolution<Vec<DeclRef>>)
        requires
            self.valid_ref(script),
        ensures
            list_view(r) == members_spec(*self, script),
            r matches Resolution::Resolved(v) ==> self.valid_refs(v@),
    {
        let n = self.documents.len();
        let mut name: String = self.documents[script.document].semantic.declarations[script.declaration].name.clone();
        let mut visited: Vec<Vec<u8>> = Vec::new();
        let mut members: Vec<DeclRef> = Vec::new();
        let mut fuel: usize = n;
        assert(byte_views(visited@) =~= Seq::<Seq<u8>>::empty());
        assert(members@ =~= Seq::<DeclRef>::empty());
        while fuel > 0
            invariant
                n == self.documents@.len(),
                self.valid_refs(members@),
                members_walk(*self, string_bytes(name), byte_views(visited@), members@, fuel as nat)
                    == members_spec(*self, script),
            decreases fuel,
        {
            let raw = name.as_str().as_bytes();
            let lowered = crate::text::lowercase_range(raw, 0, raw.len());
            assert(raw@.subrange(0, raw@.len() as int) =~= raw@);
            if seen_before(&visited, &lowered) {
                return Resolution::Unsupported;
            }
            let d = match self.unique_script_outcome(name.as_str().as_bytes()) {
                Resolution::Resolved(d) => d,
                Resolution::Ambiguous => return Resolution::Ambiguous,
                _ => return Resolution::Unsupported,
            };
            let ds = &self.documents[d.document].semantic.declarations;
            let ghost start = members@;
            let mut i: usize = 0;
            while i < ds.len()
                invariant
                    d.document < self.documents@.len(),
                    ds@ == self.declarations(d.document as int),
                    0 <= i <= ds@.len(),
                    self.valid_refs(members@),
                    members@ == add_members(*self, d.document as int, string_bytes(name), start, i as int),
                decreases ds@.len() - i,
            {
                let decl = &ds[i];
                let member = match &decl.owner_script {
                    Some(owner) => name_is(owner, name.as_str().as_bytes()),
                    None => false,
                } && decl.container.is_none() && decl.kind != DeclarationKind::Script && decl.kind
                    != DeclarationKind::Parameter && !decl.is_global;
                if member && !self.has_named_exec(&members, decl.name.as_str().as_bytes()) {
                    members.push(DeclRef { document: d.document, declaration: i });
                }
                i = i + 1;
            }
            match &self.documents[d.document].semantic.parent_script {
                Some(parent) => {
                    let ghost before = byte_views(visited@);
                    assert(lowered@ == lower_seq(string_bytes(name)));
                    visited.push(lowered);
                    assert(byte_views(visited@) =~= before.push(lower_seq(string_bytes(name))));
                    name = parent.clone();
                    fuel = fuel - 1;
                },
                None => return Resolution::Resolved(members),
            }
        }
        Resolution::Unsupported
    }
}

/// The imports of the current document among the first `k`, resolved: the
/// declarations of the imported scripts that the filter keeps and whether an
/// import did not resolve; `None` when one is ambiguous.
pub open spec fn imported_walk(ws: WorkspaceIndex, cur: int, filter: FilterSpec, k: int) -> Option<
    (Seq<DeclRef>, bool),
>
    decreases k,
{
    if k <= 0 {
        Some((Seq::empty(), false))
    } else {
        match imported_walk(ws, cur, filter, k - 1) {
            None => None,
            Some((m, incomplete)) => {
                let module = ws.documents@[cur].semantic.imports@[k - 1];
                match unique_script_spec(ws, string_bytes(module)) {
                    Resolution::Resolved(d) => Some((m + selected(ws, d.document as int, filter), incomplete)),
                    Resolution::Ambiguous => None,
                    _ => Some((m, true)),
                }
            },
        }
    }
}

/// The declaration named `name` that the imports of the current document
/// provide: ambiguous when an import is, or when a match exists while an
/// import did not resolve; unsupported when nothing matches and an import did
/// not resolve.
pub open spec fn imported_spec(ws: WorkspaceIndex, cur: int, name: Seq<u8>, filter: FilterSpec) -> Resolution<
    DeclRef,
> {
    match imported_walk(ws, cur, filter, ws.documents@[cur].semantic.imports@.len() as int) {
        None => Resolution::Ambiguous,
        Some((m, incomplete)) => {
            let o = named_outcome_spec(ws, m, name);
            if incomplete {
                match o {
                    Resolution::Resolved(_) => Resolution::Ambiguous,
                    Resolution::Ambiguous => Resolution::Ambiguous,
                    _ => Resolution::Unsupported,
                }
            } else {
                o
            }
        },
    }
}

fn append_refs(out: &mut Vec<DeclRef>, more: &Vec<DeclRef>)
    ensures
        final(out)@ == old(out)@ + more@,
{
    let mut i: usize = 0;
    while i < more.len()
        invariant
            0 <= i <= more@.len(),
            out@ == old(out)@ + more@.subrange(0, i as int),
        decreases more@.len() - i,
    {
        out.push(more[i]);
        i = i + 1;
        assert(out@ =~= old(out)@ + more@.subrange(0, i as int));
    }
    assert(more@.subrange(0, more@.len() as int) =~= more@);
}

impl WorkspaceIndex {
    /// The declaration that the current document's imports provide
    /// (`resolve_imported_outcome`).
    pub fn resolve_imported_outcome(&self, cur: usize, name: &[u8], filter: &DeclFilter) -> (r: Resolution<
        DeclRef,
    >)
        requires
            cur < self.documents@.len(),
        ensures
            r == imported_spec(*self, cur as int, name@, filter@),
            r matches Resolution::Resolved(d) ==> self.valid_ref(d),
    {
        let imports = &self.documents[cur].semantic.imports;
        let mut matches: Vec<DeclRef> = Vec::new();
        let mut incomplete = false;
        let mut i: usize = 0;
        while i < imports.len()
            invariant
                cur < self.documents@.len(),
                imports@ == self.documents@[cur as int].semantic.imports@,
                0 <= i <= imports@.len(),
                imported_walk(*self, cur as int, filter@, i as int) == Some((matches@, incomplete)),
                self.valid_refs(matches@),
            decreases imports@.len() - i,
        {
            match self.unique_script_outcome(imports[i].as_str().as_bytes()) {
                Resolution::Resolved(d) => {
                    let more = self.select_declarations(d.document, filter);
                    append_refs(&mut matches, &more);
                },
                Resolution::Ambiguous => {
                    proof {
                        lemma_imported_walk_stays_none(*self, cur as int, filter@, i + 1, imports@.len() as int);
                    }
                    return Resolution::Ambiguous;
                },
                _ => {
                    incomplete = true;
                },
            }
            i = i + 1;
        }
        let o = self.named_outcome(&matches, name);
        if incomplete {
            match o {
                Resolution::Resolved(_) => Resolution::Ambiguous,
                Resolution::Ambiguous => Resolution::Ambiguous,
                _ => Resolution::Unsupported,
            }
        } else {
            proof {
                lemma_named_outcome_valid(*self, matches@, name@);
            }
            o
        }
    }
}

proof fn lemma_imported_walk_stays_none(ws: WorkspaceIndex, cur: int, filter: FilterSpec, k: int, n: int)
    requires
        1 <= k <= n,
        imported_walk(ws, cur, filter, k) is None,
    ensures
        imported_walk(ws, cur, filter, n) is None,
    decreases n - k,
{
    if k < n {
        lemma_imported_walk_stays_none(ws, cur, filter, k + 1, n);
    }
}

proof fn lemma_named_among_sub(ws: WorkspaceIndex, refs: Seq<DeclRef>, name: Seq<u8>, k: int)
    requires
        0 <= k <= refs.len(),
    ensures
        forall|j: int| 0 <= j < named_among(ws, refs, name, k).len() ==> exists|m: int| 0 <= m < k && #[trigger] named_among(ws, refs, name, k)[j] == refs[m],
    decreases k,
{
    if k > 0 {
        lemma_named_among_sub(ws, refs, name, k - 1);
        let prev = named_among(ws, refs, name, k - 1);
        let cur = named_among(ws, refs, name, k);
        assert forall|j: int| 0 <= j < cur.len() implies exists|m: int| 0 <= m < k && #[trigger] cur[j] == refs[m] by {
            if j < prev.len() {
                assert(cur[j] == prev[j]);
                let m = choose|m: int| 0 <= m < k - 1 && prev[j] == refs[m];
                assert(cur[j] == refs[m]);
            } else {
                assert(cur[j] == refs[k - 1]);
            }
        }
    }
}

/// The outcome of a name among valid references resolves to one of them.
pub proof fn lemma_named_outcome_valid(ws: WorkspaceIndex, refs: Seq<DeclRef>, name: Seq<u8>)
    requires
        ws.valid_refs(refs),
    ensures
        named_outcome_spec(ws, refs, name) matches Resolution::Resolved(d) ==> ws.valid_ref(d),
{
    lemma_named_among_sub(ws, refs, name, refs.len() as int);
    let m = named_among(ws, refs, name, refs.len() as int);
    if m.len() == 1 {
        let k = choose|k: int| 0 <= k < refs.len() && #[trigger] m[0] == refs[k];
        assert(ws.valid_ref(refs[k]));
    }
}

/// The struct type named `b` as the current document sees it: a top-level
/// struct of the document, else for `Script:Struct` a struct of that script
/// when the script part names one (ambiguous when it is), else a struct that
/// the imports provide.
pub open spec fn structure_spec(ws: WorkspaceIndex, cur: int, b: Seq<u8>) -> Resolution<DeclRef> {
    let local = named_outcome_spec(ws, selected(ws, cur, FilterSpec::Structure(b)), b);
    let c = crate::rename_rules::last_colon(b, b.len() as int);
    let script = unique_script_spec(ws, b.subrange(0, c));
    let part = b.subrange(c + 1, b.len() as int);
    if !(local is Missing) {
        local
    } else if c >= 0 && script is Resolved {
        named_outcome_spec(ws, selected(ws, script->0.document as int, FilterSpec::Structure(part)), part)
    } else if c >= 0 && script is Ambiguous {
        Resolution::Ambiguous
    } else {
        imported_spec(ws, cur, b, FilterSpec::ImportedStructure(b))
    }
}

/// The members of the type named `b`: none for a primitive type; the
/// members of a script of that name; else the declarations inside the
/// struct of that name.
pub open spec fn members_of_type_spec(ws: WorkspaceIndex, cur: int, b: Seq<u8>) -> Resolution<Seq<DeclRef>> {
    let script = unique_script_spec(ws, b);
    let structure = structure_spec(ws, cur, b);
    if crate::type_system::spec_is_primitive_name(b) {
        Resolution::Unsupported
    } else if script is Resolved {
        members_spec(ws, script->0)
    } else if script is Ambiguous {
        Resolution::Ambiguous
    } else if structure is Resolved {
        Resolution::Resolved(
            selected(
                ws,
                structure->0.document as int,
                FilterSpec::Container(string_bytes(ws.decl(structure->0).name)),
            ),
        )
    } else if structure is Ambiguous {
        Resolution::Ambiguous
    } else {
        Resolution::Unsupported
    }
}

/// What a name means at an offset of the current document: a declaration of
/// an enclosing container whose scope holds the offset, else a top-level one,
/// else a member of the document's script or its ancestors, else a struct or
/// global function that the imports provide.
pub open spec fn visible_name_spec(ws: WorkspaceIndex, cur: int, name: Seq<u8>, offset: usize) -> Resolution<
    DeclRef,
> {
    let scoped = named_outcome_spec(ws, selected(ws, cur, FilterSpec::Scoped(name, offset)), name);
    let top = named_outcome_spec(ws, selected(ws, cur, FilterSpec::TopLevel(name)), name);
    let script_name = ws.documents@[cur].semantic.script_name;
    if !(scoped is Missing) {
        scoped
    } else if !(top is Missing) {
        top
    } else if script_name is None {
        Resolution::Unsupported
    } else {
        match unique_script_spec(ws, string_bytes(script_name->0)) {
            Resolution::Resolved(script) => match members_spec(ws, script) {
                Resolution::Resolved(members) => {
                    let inherited = named_outcome_spec(ws, members, name);
                    if !(inherited is Missing) {
                        inherited
                    } else {
                        imported_spec(ws, cur, name, FilterSpec::ImportedValue(name))
                    }
                },
                Resolution::Ambiguous => Resolution::Ambiguous,
                _ => Resolution::Unsupported,
            },
            Resolution::Ambiguous => Resolution::Ambiguous,
            _ => Resolution::Unsupported,
        }
    }
}

impl WorkspaceIndex {
    /// The struct type named `type_text` (`resolve_structure_outcome`).
    pub fn resolve_structure_outcome(&self, cur: usize, type_text: &[u8]) -> (r: Resolution<DeclRef>)
        requires
            cur < self.documents@.len(),
        ensures
            r == structure_spec(*self, cur as int, type_text@),
            r matches Resolution::Resolved(d) ==> self.valid_ref(d),
    {
        let ghost b = type_text@;
        let local_refs = self.select_declarations(cur, &DeclFilter::Structure(type_text));
        let local = self.named_outcome(&local_refs, type_text);
        proof {
            lemma_named_outcome_valid(*self, local_refs@, b);
        }
        match local {
            Resolution::Missing => {},
            other => return other,
        }
        let mut c = type_text.len();
        while c > 0 && type_text[c - 1] != 58
            invariant
                c <= b.len(),
                b == type_text@,
                crate::rename_rules::last_colon(b, c as int) == crate::rename_rules::last_colon(
                    b,
                    b.len() as int,
                ),
            decreases c,
        {
            c = c - 1;
        }
        if c > 0 {
            let colon = c - 1;
            let script_part = crate::text::copy_range(type_text, 0, colon);
            match self.unique_script_outcome(script_part.as_slice()) {
                Resolution::Resolved(d) => {
                    let part = crate::text::copy_range(type_text, colon + 1, type_text.len());
                    let refs = self.select_declarations(d.document, &DeclFilter::Structure(part.as_slice()));
                    proof {
                        lemma_named_outcome_valid(*self, refs@, part@);
                    }
                    return self.named_outcome(&refs, part.as_slice());
                },
                Resolution::Ambiguous => return Resolution::Ambiguous,
                _ => {},
            }
        }
        self.resolve_imported_outcome(cur, type_text, &DeclFilter::ImportedStructure(type_text))
    }

    /// The members of the type named `type_text` (`members_of_type_outcome`).
    pub fn members_of_type_outcome(&self, cur: usize, type_text: &[u8]) -> (r: Resolution<Vec<DeclRef>>)
        requires
            cur < self.documents@.len(),
        ensures
            list_view(r) == members_of_type_spec(*self, cur as int, type_text@),
            r matches Resolution::Resolved(v) ==> self.valid_refs(v@),
    {
        if is_primitive_bytes(type_text) {
            return Resolution::Unsupported;
        }
        match self.unique_script_outcome(type_text) {
            Resolution::Resolved(script) => return self.members_of_outcome(script),
            Resolution::Ambiguous => return Resolution::Ambiguous,
            _ => {},
        }
        let structure = match self.resolve_structure_outcome(cur, type_text) {
            Resolution::Resolved(s) => s,
            Resolution::Ambiguous => return Resolution::Ambiguous,
            _ => return Resolution::Unsupported,
        };
        let name = self.documents[structure.document].semantic.declarations[structure.declaration].name.as_str().as_bytes();
        Resolution::Resolved(self.select_declarations(structure.document, &DeclFilter::Container(name)))
    }

    /// What a name means at an offset of a document (`resolve_visible_name_outcome`).
    pub fn resolve_visible_name_outcome(&self, cur: usize, name: &[u8], offset: usize) -> (r: Resolution<
        DeclRef,
    >)
        requires
            cur < self.documents@.len(),
        ensures
            r == visible_name_spec(*self, cur as int, name@, offset),
            r matches Resolution::Resolved(d) ==> self.valid_ref(d),
    {
        let scoped_refs = self.select_declarations(cur, &DeclFilter::Scoped(name, offset));
        proof {
            lemma_named_outcome_valid(*self, scoped_refs@, name@);
        }
        match self.named_outcome(&scoped_refs, name) {
            Resolution::Missing => {},
            other => return other,
        }
        let top_refs = self.select_declarations(cur, &DeclFilter::TopLevel(name));
        proof {
            lemma_named_outcome_valid(*self, top_refs@, name@);
        }
        match self.named_outcome(&top_refs, name) {
            Resolution::Missing => {},
            other => return other,
        }
        let script_name = match &self.documents[cur].semantic.script_name {
            Some(s) => s,
            None => return Resolution::Unsupported,
        };
        let script = match self.unique_script_outcome(script_name.as_str().as_bytes()) {
            Resolution::Resolved(script) => script,
            Resolution::Ambiguous => return Resolution::Ambiguous,
            _ => return Resolution::Unsupported,
        };
        match self.members_of_outcome(script) {
            Resolution::Resolved(members) => {
                proof {
                    lemma_named_outcome_valid(*self, members@, name@);
                }
                match self.named_outcome(&members, name) {
                    Resolution::Missing => {},
                    other => return other,
                }
            },
            Resolution::Ambiguous => return Resolution::Ambiguous,
            _ => return Resolution::Unsupported,
        }
        self.resolve_imported_outcome(cur, name, &DeclFilter::ImportedValue(name))
    }
}

/// One of the primitive type names, compared without case.
fn is_primitive_bytes(name: &[u8]) -> (r: bool)
    ensures
        r == crate::type_system::spec_is_primitive_name(name@),
{
    crate::text::equal_ignoring_case(name, "Bool".as_bytes()) || crate::text::equal_ignoring_case(
        name,
        "Float".as_bytes(),
    ) || crate::text::equal_ignoring_case(name, "Int".as_bytes())
        || crate::text::equal_ignoring_case(name, "String".as_bytes())
        || crate::text::equal_ignoring_case(name, "Var".as_bytes())
}

} // verus!
