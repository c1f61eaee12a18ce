//! The workspace as it reads once a declaration is renamed: the same index
//! with one declaration answering to a new name and its document counting
//! as changed content. Rename validation resolves edited references here.
use vstd::prelude::*;
use vstd::string::StringSliceAdditionalSpecFns;
use crate::semantic::{DeclarationKind, SemanticExpression, SemanticOccurrence};
use crate::text::{lower_seq, same_ignoring_case, string_bytes};
use crate::workspace::{DeclRef, WorkspaceIndex, is_member_of, key_less, opt_named};

verus! {

/// The name a declaration answers to after the rename.
pub open spec fn eff_name(ws: WorkspaceIndex, t: DeclRef, nn: Seq<u8>, d: DeclRef) -> Seq<u8> {
    if d == t {
        nn
    } else {
        string_bytes(ws.decl(d).name)
    }
}

/// A declaration that answers to `name` after the rename, without case.
pub open spec fn r_named(ws: WorkspaceIndex, t: DeclRef, nn: Seq<u8>, d: DeclRef, name: Seq<u8>) -> bool {
    same_ignoring_case(eff_name(ws, t, nn, d), name)
}

/// Two documents have the same content after the rename: they are one
/// document, or neither is the renamed declaration's and their hashes agree.
pub open spec fn same_content(ws: WorkspaceIndex, t: DeclRef, i: int, j: int) -> bool {
    i == j || (i != t.document && j != t.document && ws.documents@[i].content_hash@
        == ws.documents@[j].content_hash@)
}

/// The first script declaration of document `i` from `j` on that answers
/// to `name`; the count when none does.
pub open spec fn r_script_index(ws: WorkspaceIndex, t: DeclRef, nn: Seq<u8>, i: int, name: Seq<u8>, j: int) -> int
    decreases ws.declarations(i).len() - j,
{
    let ds = ws.declarations(i);
    if j < 0 || j >= ds.len() {
        ds.len() as int
    } else if ds[j].kind == DeclarationKind::Script && r_named(
        ws,
        t,
        nn,
        DeclRef { document: i as usize, declaration: j as usize },
        name,
    ) {
        j
    } else {
        r_script_index(ws, t, nn, i, name, j + 1)
    }
}

/// Document `i` declares a script that answers to `name`.
pub open spec fn r_candidate(ws: WorkspaceIndex, t: DeclRef, nn: Seq<u8>, i: int, name: Seq<u8>) -> bool {
    r_script_index(ws, t, nn, i, name, 0) < ws.declarations(i).len()
}

/// The lowest priority of the candidates among the first `k` documents.
pub open spec fn r_min_priority(ws: WorkspaceIndex, t: DeclRef, nn: Seq<u8>, name: Seq<u8>, k: int) -> Option<u8>
    decreases k,
{
    if k <= 0 {
        None
    } else {
        let rest = r_min_priority(ws, t, nn, name, k - 1);
        if r_candidate(ws, t, nn, k - 1, name) {
            let p = ws.documents@[k - 1].priority;
            match rest {
                Some(q) => if p < q {
                    Some(p)
                } else {
                    Some(q)
                },
                None => Some(p),
            }
        } else {
            rest
        }
    }
}

/// A candidate of priority `p`.
pub open spec fn r_retained(ws: WorkspaceIndex, t: DeclRef, nn: Seq<u8>, name: Seq<u8>, p: u8, i: int) -> bool {
    r_candidate(ws, t, nn, i, name) && ws.documents@[i].priority == p
}

/// The retained candidate among the first `k` documents that comes first
/// by key, the earliest one when keys tie.
pub open spec fn r_best(ws: WorkspaceIndex, t: DeclRef, nn: Seq<u8>, name: Seq<u8>, p: u8, k: int) -> Option<int>
    decreases k,
{
    if k <= 0 {
        None
    } else {
        let rest = r_best(ws, t, nn, name, p, k - 1);
        if r_retained(ws, t, nn, name, p, k - 1) {
            match rest {
                Some(b) => if key_less(ws.documents@[k - 1], ws.documents@[b]) {
                    Some(k - 1)
                } else {
                    Some(b)
                },
                None => Some(k - 1),
            }
        } else {
            rest
        }
    }
}

/// The script that answers to `name` after the rename: none without
/// candidates or when the candidates of the lowest priority differ in
/// content, else the one that comes first by key.
pub open spec fn r_unique_script(ws: WorkspaceIndex, t: DeclRef, nn: Seq<u8>, name: Seq<u8>) -> Option<DeclRef> {
    let n = ws.documents@.len() as int;
    match r_min_priority(ws, t, nn, name, n) {
        None => None,
        Some(p) => if exists|i: int, j: int|
            0 <= i < n && 0 <= j < n && r_retained(ws, t, nn, name, p, i) && r_retained(ws, t, nn, name, p, j)
                && !#[trigger] same_content(ws, t, i, j) {
            None
        } else {
            let b = r_best(ws, t, nn, name, p, n).unwrap();
            Some(DeclRef { document: b as usize, declaration: r_script_index(ws, t, nn, b, name, 0) as usize })
        },
    }
}

proof fn lemma_r_min_priority_witness(ws: WorkspaceIndex, t: DeclRef, nn: Seq<u8>, name: Seq<u8>, k: int) -> (j: int)
    requires
        0 <= k <= ws.documents@.len(),
    ensures
        r_min_priority(ws, t, nn, name, k) matches Some(p) ==> 0 <= j < k && r_retained(ws, t, nn, name, p, j),
    decreases k,
{
    if k <= 0 {
        0
    } else {
        let w = lemma_r_min_priority_witness(ws, t, nn, name, k - 1);
        if r_candidate(ws, t, nn, k - 1, name) {
            let q = ws.documents@[k - 1].priority;
            match r_min_priority(ws, t, nn, name, k - 1) {
                Some(r) => if q < r {
                    k - 1
                } else {
                    w
                },
                None => k - 1,
            }
        } else {
            w
        }
    }
}

proof fn lemma_r_best_retained(ws: WorkspaceIndex, t: DeclRef, nn: Seq<u8>, name: Seq<u8>, p: u8, k: int)
    requires
        0 <= k <= ws.documents@.len(),
        r_best(ws, t, nn, name, p, k) is Some,
    ensures
        r_best(ws, t, nn, name, p, k) matches Some(b) && 0 <= b < k && r_retained(ws, t, nn, name, p, b),
    decreases k,
{
    if k > 0 && r_best(ws, t, nn, name, p, k - 1) is Some {
        lemma_r_best_retained(ws, t, nn, name, p, k - 1);
    }
}

/// Which declarations of a document a renamed lookup considers.
pub enum RenamedFilter<'b> {
    /// Answering to the name, inside a container whose scope holds the offset.
    Scoped(&'b [u8], usize),
    /// Answering to the name, outside every container.
    TopLevel(&'b [u8]),
    /// Answering to the name, and a struct or a global function.
    Imported(&'b [u8]),
    /// Inside the container named so.
    Container(&'b [u8]),
    /// A global function of the script named so, outside every container.
    GlobalOf(&'b [u8]),
}

pub enum RenamedFilterSpec {
    Scoped(Seq<u8>, usize),
    TopLevel(Seq<u8>),
    Imported(Seq<u8>),
    Container(Seq<u8>),
    GlobalOf(Seq<u8>),
}

impl<'b> View for RenamedFilter<'b> {
    type V = RenamedFilterSpec;

    open spec fn view(&self) -> RenamedFilterSpec {
        match *self {
            RenamedFilter::Scoped(n, o) => RenamedFilterSpec::Scoped(n@, o),
            RenamedFilter::TopLevel(n) => RenamedFilterSpec::TopLevel(n@),
            RenamedFilter::Imported(n) => RenamedFilterSpec::Imported(n@),
            RenamedFilter::Container(n) => RenamedFilterSpec::Container(n@),
            RenamedFilter::GlobalOf(n) => RenamedFilterSpec::GlobalOf(n@),
        }
    }
}

pub open spec fn r_keeps(ws: WorkspaceIndex, t: DeclRef, nn: Seq<u8>, f: RenamedFilterSpec, d: DeclRef) -> bool {
    let decl = ws.decl(d);
    match f {
        RenamedFilterSpec::Scoped(name, offset) => r_named(ws, t, nn, d, name) && decl.scope.start <= offset
            < decl.scope.end && decl.container is Some,
        RenamedFilterSpec::TopLevel(name) => r_named(ws, t, nn, d, name) && decl.container is None,
        RenamedFilterSpec::Imported(name) => r_named(ws, t, nn, d, name) && (decl.kind == DeclarationKind::Struct
            || (decl.kind == DeclarationKind::Function && decl.is_global)),
        RenamedFilterSpec::Container(name) => opt_named(decl.container, name),
        RenamedFilterSpec::GlobalOf(name) => decl.kind == DeclarationKind::Function && decl.is_global
            && decl.container is None && opt_named(decl.owner_script, name),
    }
}

/// The declarations among the first `k` of a document that a filter keeps.
pub open spec fn r_select(ws: WorkspaceIndex, t: DeclRef, nn: Seq<u8>, doc: int, f: RenamedFilterSpec, k: int) -> Seq<
    DeclRef,
>
    decreases k,
{
    if k <= 0 || k > ws.declarations(doc).len() {
        Seq::empty()
    } else {
        let d = DeclRef { document: doc as usize, declaration: (k - 1) as usize };
        r_select(ws, t, nn, doc, f, k - 1) + if r_keeps(ws, t, nn, f, d) {
            seq![d]
        } else {
            Seq::empty()
        }
    }
}

pub open spec fn r_selected(ws: WorkspaceIndex, t: DeclRef, nn: Seq<u8>, doc: int, f: RenamedFilterSpec) -> Seq<DeclRef> {
    r_select(ws, t, nn, doc, f, ws.declarations(doc).len() as int)
}

/// The references among the first `k` that answer to `name`.
pub open spec fn r_named_among(ws: WorkspaceIndex, t: DeclRef, nn: Seq<u8>, refs: Seq<DeclRef>, name: Seq<u8>, k: int) -> Seq<
    DeclRef,
>
    decreases k,
{
    if k <= 0 || k > refs.len() {
        Seq::empty()
    } else {
        r_named_among(ws, t, nn, refs, name, k - 1) + if r_named(ws, t, nn, refs[k - 1], name) {
            seq![refs[k - 1]]
        } else {
            Seq::empty()
        }
    }
}

/// The one reference that answers to `name`, if exactly one does.
pub open spec fn r_unique_named(ws: WorkspaceIndex, t: DeclRef, nn: Seq<u8>, refs: Seq<DeclRef>, name: Seq<u8>) -> Option<
    DeclRef,
> {
    let m = r_named_among(ws, t, nn, refs, name, refs.len() as int);
    if m.len() == 1 {
        Some(m[0])
    } else {
        None
    }
}

/// Some reference answers to `name`.
pub open spec fn r_has_named(ws: WorkspaceIndex, t: DeclRef, nn: Seq<u8>, acc: Seq<DeclRef>, name: Seq<u8>) -> bool {
    exists|k: int| 0 <= k < acc.len() && r_named(ws, t, nn, #[trigger] acc[k], name)
}

/// `acc` extended by the members of `owner` among the first `k`
/// declarations of a document whose names no member before them answers to.
pub open spec fn r_add_members(
    ws: WorkspaceIndex,
    t: DeclRef,
    nn: Seq<u8>,
    doc: int,
    owner: Seq<u8>,
    acc: Seq<DeclRef>,
    k: int,
) -> Seq<DeclRef>
    decreases k,
{
    if k <= 0 || k > ws.declarations(doc).len() {
        acc
    } else {
        let rest = r_add_members(ws, t, nn, doc, owner, acc, k - 1);
        let d = DeclRef { document: doc as usize, declaration: (k - 1) as usize };
        if is_member_of(ws.decl(d), owner) && !r_has_named(ws, t, nn, rest, eff_name(ws, t, nn, d)) {
            rest.push(d)
        } else {
            rest
        }
    }
}

/// The members of the script `name` and of its ancestors after the rename,
/// nearest first, each name once, as far as the chain resolves and does
/// not repeat.
pub open spec fn r_members_walk(
    ws: WorkspaceIndex,
    t: DeclRef,
    nn: Seq<u8>,
    name: Seq<u8>,
    visited: Seq<Seq<u8>>,
    acc: Seq<DeclRef>,
    fuel: nat,
) -> Seq<DeclRef>
    decreases fuel,
{
    if fuel == 0 || visited.contains(lower_seq(name)) {
        acc
    } else {
        match r_unique_script(ws, t, nn, name) {
            Some(rs) => {
                let doc = rs.document as int;
                let acc2 = r_add_members(
                    ws,
                    t,
                    nn,
                    doc,
                    string_bytes(ws.decl(rs).name),
                    acc,
                    ws.declarations(doc).len() as int,
                );
                match ws.documents@[doc].semantic.parent_script {
                    Some(p) => r_members_walk(
                        ws,
                        t,
                        nn,
                        string_bytes(p),
                        visited.push(lower_seq(name)),
                        acc2,
                        (fuel - 1) as nat,
                    ),
                    None => acc2,
                }
            },
            None => acc,
        }
    }
}

pub open spec fn r_members_of(ws: WorkspaceIndex, t: DeclRef, nn: Seq<u8>, script: DeclRef) -> Seq<DeclRef> {
    r_members_walk(ws, t, nn, eff_name(ws, t, nn, script), Seq::empty(), Seq::empty(), ws.documents@.len() as nat)
}

/// The structs and global functions answering to `name` of the scripts that
/// the first `k` imports of document `cur` name.
pub open spec fn r_imported_values(ws: WorkspaceIndex, t: DeclRef, nn: Seq<u8>, cur: int, name: Seq<u8>, k: int) -> Seq<
    DeclRef,
>
    decreases k,
{
    let imports = ws.documents@[cur].semantic.imports@;
    if k <= 0 || k > imports.len() {
        Seq::empty()
    } else {
        r_imported_values(ws, t, nn, cur, name, k - 1) + match r_unique_script(ws, t, nn, string_bytes(imports[k - 1])) {
            Some(d) => r_selected(ws, t, nn, d.document as int, RenamedFilterSpec::Imported(name)),
            None => Seq::empty(),
        }
    }
}

pub open spec fn r_imported(ws: WorkspaceIndex, t: DeclRef, nn: Seq<u8>, cur: int, name: Seq<u8>) -> Option<DeclRef> {
    r_unique_named(
        ws,
        t,
        nn,
        r_imported_values(ws, t, nn, cur, name, ws.documents@[cur].semantic.imports@.len() as int),
        name,
    )
}

/// The members of the type named `name`: those of the script of that name,
/// else the fields of the imported struct of that name.
pub open spec fn r_members_of_type(ws: WorkspaceIndex, t: DeclRef, nn: Seq<u8>, cur: int, name: Seq<u8>) -> Seq<DeclRef> {
    match r_unique_script(ws, t, nn, name) {
        Some(s) => r_members_of(ws, t, nn, s),
        None => match r_imported(ws, t, nn, cur, name) {
            Some(st) => if ws.decl(st).kind == DeclarationKind::Struct {
                r_selected(ws, t, nn, st.document as int, RenamedFilterSpec::Container(string_bytes(ws.decl(st).name)))
            } else {
                Seq::empty()
            },
            None => Seq::empty(),
        },
    }
}

/// What `name` means at `offset` of document `cur` after the rename.
pub open spec fn r_visible(ws: WorkspaceIndex, t: DeclRef, nn: Seq<u8>, cur: int, name: Seq<u8>, offset: usize) -> Option<DeclRef> {
    let scoped = r_unique_named(ws, t, nn, r_selected(ws, t, nn, cur, RenamedFilterSpec::Scoped(name, offset)), name);
    let top = r_unique_named(ws, t, nn, r_selected(ws, t, nn, cur, RenamedFilterSpec::TopLevel(name)), name);
    if scoped is Some {
        scoped
    } else if top is Some {
        top
    } else {
        match ws.documents@[cur].semantic.script_name {
            None => None,
            Some(sn) => match r_unique_script(ws, t, nn, string_bytes(sn)) {
                None => None,
                Some(script) => match r_unique_named(ws, t, nn, r_members_of(ws, t, nn, script), name) {
                    Some(d) => Some(d),
                    None => r_imported(ws, t, nn, cur, name),
                },
            },
        }
    }
}

/// The member `member` of what `receiver` names at `offset`: of the
/// declared type of a visible declaration, else a global function of the
/// script of that name.
pub open spec fn r_qualified(
    ws: WorkspaceIndex,
    t: DeclRef,
    nn: Seq<u8>,
    cur: int,
    receiver: Seq<u8>,
    member: Seq<u8>,
    offset: usize,
) -> Option<DeclRef> {
    match r_visible(ws, t, nn, cur, receiver, offset) {
        Some(rd) => match ws.decl(rd).ty {
            Some(ty) => r_unique_named(ws, t, nn, r_members_of_type(ws, t, nn, cur, string_bytes(ty.name)), member),
            None => None,
        },
        None => match r_unique_script(ws, t, nn, receiver) {
            Some(s) => r_unique_named(
                ws,
                t,
                nn,
                r_selected(ws, t, nn, s.document as int, RenamedFilterSpec::GlobalOf(string_bytes(ws.decl(s).name))),
                member,
            ),
            None => None,
        },
    }
}

/// What an edited occurrence, spelling the new name, resolves to after the
/// rename: a member of an identifier receiver, else a visible declaration,
/// else a script.
pub open spec fn r_occurrence(ws: WorkspaceIndex, t: DeclRef, nn: Seq<u8>, cur: int, o: SemanticOccurrence) -> Option<DeclRef> {
    match o.receiver {
        Some(e) => match e {
            SemanticExpression::Identifier { name, .. } => r_qualified(ws, t, nn, cur, string_bytes(name), nn, o.byte_offset),
            _ => None,
        },
        None => match r_visible(ws, t, nn, cur, nn, o.byte_offset) {
            Some(d) => Some(d),
            None => r_unique_script(ws, t, nn, nn),
        },
    }
}

/// A lookup of the workspace in which one declaration answers to a new name.
pub struct RenamedResolver<'a> {
    pub workspace: &'a WorkspaceIndex,
    pub target: DeclRef,
    pub new_name: &'a str,
}

impl<'a> RenamedResolver<'a> {
    pub open spec fn ws(self) -> WorkspaceIndex {
        *self.workspace
    }

    pub open spec fn nn(self) -> Seq<u8> {
        self.new_name.spec_bytes()
    }

    /// The name a declaration answers to (`declaration_name`).
    pub fn declaration_name(&self, d: DeclRef) -> (r: &[u8])
        requires
            self.workspace.valid_ref(d),
        ensures
            r@ == eff_name(self.ws(), self.target, self.nn(), d),
    {
        if d == self.target {
            self.new_name.as_bytes()
        } else {
            self.workspace.documents[d.document].semantic.declarations[d.declaration].name.as_str().as_bytes()
        }
    }

    /// Whether a declaration answers to `name` (`name_matches`).
    pub fn name_matches(&self, d: DeclRef, name: &[u8]) -> (r: bool)
        requires
            self.workspace.valid_ref(d),
        ensures
            r == r_named(self.ws(), self.target, self.nn(), d, name@),
    {
        crate::text::equal_ignoring_case(self.declaration_name(d), name)
    }

    /// Whether two documents have the same content (`same_effective_content`).
    pub fn same_effective_content(&self, i: usize, j: usize) -> (r: bool)
        requires
            i < self.workspace.documents@.len(),
            j < self.workspace.documents@.len(),
        ensures
            r == same_content(self.ws(), self.target, i as int, j as int),
    {
        if i == j {
            return true;
        }
        if i == self.target.document || j == self.target.document {
            return false;
        }
        crate::text::bytes_equal(
            self.workspace.documents[i].content_hash.as_slice(),
            self.workspace.documents[j].content_hash.as_slice(),
        )
    }

    fn script_index(&self, i: usize, name: &[u8]) -> (r: usize)
        requires
            i < self.workspace.documents@.len(),
        ensures
            r as int == r_script_index(self.ws(), self.target, self.nn(), i as int, name@, 0),
            r <= self.ws().declarations(i as int).len(),
    {
        let ds = &self.workspace.documents[i].semantic.declarations;
        let mut j: usize = 0;
        while j < ds.len()
            invariant
                i < self.workspace.documents@.len(),
                ds@ == self.ws().declarations(i as int),
                0 <= j <= ds@.len(),
                r_script_index(self.ws(), self.target, self.nn(), i as int, name@, j as int) == r_script_index(
                    self.ws(),
                    self.target,
                    self.nn(),
                    i as int,
                    name@,
                    0,
                ),
            decreases ds@.len() - j,
        {
            if ds[j].kind == DeclarationKind::Script && self.name_matches(DeclRef { document: i, declaration: j }, name) {
                return j;
            }
            j = j + 1;
        }
        j
    }

    /// The script that answers to `name` (`unique_script`).
    pub fn unique_script(&self, name: &[u8]) -> (r: Option<DeclRef>)
        ensures
            r == r_unique_script(self.ws(), self.target, self.nn(), name@),
            r matches Some(d) ==> self.workspace.valid_ref(d),
    {
        let ghost ws = self.ws();
        let ghost t = self.target;
        let ghost nn = self.nn();
        let ghost nm = name@;
        let docs = &self.workspace.documents;
        let n = docs.len();
        let mut lowest: Option<u8> = None;
        let mut i: usize = 0;
        while i < n
            invariant
                n == docs@.len(),
                docs@ == ws.documents@,
                ws == self.ws(),
                t == self.target,
                nn == self.nn(),
                nm == name@,
                0 <= i <= n,
                lowest == r_min_priority(ws, t, nn, nm, i as int),
            decreases n - i,
        {
            if self.script_index(i, name) < docs[i].semantic.declarations.len() {
                let p = docs[i].priority;
                lowest = match lowest {
                    Some(q) => if p < q {
                        Some(p)
                    } else {
                        Some(q)
                    },
                    None => Some(p),
                };
            }
            i = i + 1;
        }
        let p = match lowest {
            Some(p) => p,
            None => return None,
        };
        let ghost w = lemma_r_min_priority_witness(ws, t, nn, nm, n as int);
        let mut f: usize = 0;
        while f < n && !(self.script_index(f, name) < docs[f].semantic.declarations.len() && docs[f].priority == p)
            invariant
                n == docs@.len(),
                docs@ == ws.documents@,
                ws == self.ws(),
                t == self.target,
                nn == self.nn(),
                nm == name@,
                0 <= f <= n,
                0 <= w < n,
                r_retained(ws, t, nn, nm, p, w),
                forall|u: int| 0 <= u < f ==> !r_retained(ws, t, nn, nm, p, u),
            decreases n - f,
        {
            f = f + 1;
        }
        assert(f < n);
        let mut best: usize = f;
        let mut k: usize = 0;
        while k < n
            invariant
                n == docs@.len(),
                docs@ == ws.documents@,
                ws == self.ws(),
                t == self.target,
                nn == self.nn(),
                nm == name@,
                0 <= k <= n,
                f < n,
                r_min_priority(ws, t, nn, nm, n as int) == Some(p),
                r_retained(ws, t, nn, nm, p, f as int),
                forall|u: int| 0 <= u < f ==> !r_retained(ws, t, nn, nm, p, u),
                forall|j: int| 0 <= j < k && r_retained(ws, t, nn, nm, p, j) ==> #[trigger] same_content(ws, t, j, f as int),
                k > f ==> r_best(ws, t, nn, nm, p, k as int) == Some(best as int),
                k <= f ==> r_best(ws, t, nn, nm, p, k as int) is None,
                best < n,
            decreases n - k,
        {
            let here = self.script_index(k, name) < docs[k].semantic.declarations.len() && docs[k].priority == p;
            if here {
                if !self.same_effective_content(k, f) {
                    assert(r_retained(ws, t, nn, nm, p, k as int) && r_retained(ws, t, nn, nm, p, f as int)
                        && !same_content(ws, t, k as int, f as int));
                    return None;
                }
                if k > f && crate::workspace::document_key_less(&docs[k], &docs[best]) {
                    best = k;
                } else if k == f {
                    best = k;
                }
            }
            k = k + 1;
        }
        proof {
            assert forall|a: int, b: int|
                0 <= a < n && 0 <= b < n && r_retained(ws, t, nn, nm, p, a) && r_retained(ws, t, nn, nm, p, b)
                    implies #[trigger] same_content(ws, t, a, b) by {
                assert(same_content(ws, t, a, f as int));
                assert(same_content(ws, t, b, f as int));
            }
            lemma_r_best_retained(ws, t, nn, nm, p, n as int);
        }
        let d = self.script_index(best, name);
        Some(DeclRef { document: best, declaration: d })
    }

    fn keeps(&self, f: &RenamedFilter, d: DeclRef) -> (r: bool)
        requires
            self.workspace.valid_ref(d),
        ensures
            r == r_keeps(self.ws(), self.target, self.nn(), f@, d),
    {
        let decl = &self.workspace.documents[d.document].semantic.declarations[d.declaration];
        match f {
            RenamedFilter::Scoped(name, offset) => self.name_matches(d, name) && decl.scope.start <= *offset && *offset
                < decl.scope.end && decl.container.is_some(),
            RenamedFilter::TopLevel(name) => self.name_matches(d, name) && decl.container.is_none(),
            RenamedFilter::Imported(name) => self.name_matches(d, name) && (decl.kind == DeclarationKind::Struct || (
            decl.kind == DeclarationKind::Function && decl.is_global)),
            RenamedFilter::Container(name) => match &decl.container {
                Some(c) => crate::text::equal_ignoring_case(c.as_str().as_bytes(), name),
                None => false,
            },
            RenamedFilter::GlobalOf(name) => decl.kind == DeclarationKind::Function && decl.is_global
                && decl.container.is_none() && match &decl.owner_script {
                Some(o) => crate::text::equal_ignoring_case(o.as_str().as_bytes(), name),
                None => false,
            },
        }
    }

    fn select(&self, doc: usize, f: &RenamedFilter) -> (r: Vec<DeclRef>)
        requires
            doc < self.workspace.documents@.len(),
        ensures
            r@ == r_selected(self.ws(), self.target, self.nn(), doc as int, f@),
            self.workspace.valid_refs(r@),
    {
        let ds = &self.workspace.documents[doc].semantic.declarations;
        let mut out: Vec<DeclRef> = Vec::new();
        let mut i: usize = 0;
        while i < ds.len()
            invariant
                doc < self.workspace.documents@.len(),
                ds@ == self.ws().declarations(doc as int),
                0 <= i <= ds@.len(),
                out@ == r_select(self.ws(), self.target, self.nn(), doc as int, f@, i as int),
                self.workspace.valid_refs(out@),
            decreases ds@.len() - i,
        {
            let d = DeclRef { document: doc, declaration: i };
            let ghost before = out@;
            if self.keeps(f, d) {
                out.push(d);
            }
            proof {
                assert(out@ =~= r_select(self.ws(), self.target, self.nn(), doc as int, f@, i + 1));
                assert forall|k: int| 0 <= k < out@.len() implies self.workspace.valid_ref(#[trigger] out@[k]) by {
                    if k < before.len() {
                        assert(out@[k] == before[k]);
                    }
                }
            }
            i = i + 1;
        }
        out
    }

    fn unique_named(&self, refs: &Vec<DeclRef>, name: &[u8]) -> (r: Option<DeclRef>)
        requires
            self.workspace.valid_refs(refs@),
        ensures
            r == r_unique_named(self.ws(), self.target, self.nn(), refs@, name@),
            r matches Some(d) ==> self.workspace.valid_ref(d),
    {
        let ghost ws = self.ws();
        let mut count: usize = 0;
        let mut found: Option<DeclRef> = None;
        let mut i: usize = 0;
        while i < refs.len()
            invariant
                ws == self.ws(),
                self.workspace.valid_refs(refs@),
                0 <= i <= refs@.len(),
                count <= i,
                ({
                    let m = r_named_among(ws, self.target, self.nn(), refs@, name@, i as int);
                    &&& (count < 2 ==> count == m.len())
                    &&& (count >= 2 ==> m.len() >= 2)
                    &&& (m.len() >= 1 ==> found == Some(m[0]))
                    &&& (m.len() == 0 ==> found is None)
                }),
                found matches Some(d) ==> self.workspace.valid_ref(d),
            decreases refs@.len() - i,
        {
            assert(self.workspace.valid_ref(refs@[i as int]));
            let ghost m = r_named_among(ws, self.target, self.nn(), refs@, name@, i as int);
            if self.name_matches(refs[i], name) {
                if count == 0 {
                    found = Some(refs[i]);
                }
                if count < 2 {
                    count = count + 1;
                }
            }
            proof {
                let m2 = r_named_among(ws, self.target, self.nn(), refs@, name@, i + 1);
                if m.len() >= 1 {
                    assert(m2[0] == m[0]);
                }
            }
            i = i + 1;
        }
        if count == 1 {
            found
        } else {
            None
        }
    }

    fn has_named(&self, acc: &Vec<DeclRef>, name: &[u8]) -> (r: bool)
        requires
            self.workspace.valid_refs(acc@),
        ensures
            r == r_has_named(self.ws(), self.target, self.nn(), acc@, name@),
    {
        let mut i: usize = 0;
        while i < acc.len()
            invariant
                self.workspace.valid_refs(acc@),
                0 <= i <= acc@.len(),
                forall|k: int| 0 <= k < i ==> !r_named(self.ws(), self.target, self.nn(), #[trigger] acc@[k], name@),
            decreases acc@.len() - i,
        {
            assert(self.workspace.valid_ref(acc@[i as int]));
            if self.name_matches(acc[i], name) {
                return true;
            }
            i = i + 1;
        }
        false
    }

    /// The members of a script and its ancestors after the rename (`members_of`).
    pub fn members_of(&self, script: DeclRef) -> (r: Vec<DeclRef>)
        requires
            self.workspace.valid_ref(script),
        ensures
            r@ == r_members_of(self.ws(), self.target, self.nn(), script),
            self.workspace.valid_refs(r@),
    {
        let ghost ws = self.ws();
        let ghost t = self.target;
        let ghost nn = self.nn();
        let n = self.workspace.documents.len();
        let start_name = self.declaration_name(script);
        let mut name: Vec<u8> = crate::text::copy_range(start_name, 0, start_name.len());
        assert(start_name@.subrange(0, start_name@.len() as int) =~= eff_name(ws, t, nn, script));
        let mut visited: Vec<Vec<u8>> = Vec::new();
        let mut members: Vec<DeclRef> = Vec::new();
        let mut fuel: usize = n;
        let ghost target = r_members_of(ws, t, nn, script);
        assert(crate::workspace::byte_views(visited@) =~= Seq::<Seq<u8>>::empty());
        assert(members@ =~= Seq::<DeclRef>::empty());
        while fuel > 0
            invariant
                ws == self.ws(),
                t == self.target,
                nn == self.nn(),
                n == ws.documents@.len(),
                self.workspace.valid_refs(members@),
                target == r_members_of(ws, t, nn, script),
                r_members_walk(ws, t, nn, name@, crate::workspace::byte_views(visited@), members@, fuel as nat) == target,
            decreases fuel,
        {
            let lowered = crate::text::lowercase_range(name.as_slice(), 0, name.len());
            assert(name@.subrange(0, name@.len() as int) =~= name@);
            if crate::workspace::seen_before(&visited, &lowered) {
                return members;
            }
            let rs = match self.unique_script(name.as_slice()) {
                Some(d) => d,
                None => return members,
            };
            let owner = self.workspace.documents[rs.document].semantic.declarations[rs.declaration].name.as_str().as_bytes();
            let ds = &self.workspace.documents[rs.document].semantic.declarations;
            let ghost start = members@;
            let mut i: usize = 0;
            while i < ds.len()
                invariant
                    ws == self.ws(),
                    t == self.target,
                    nn == self.nn(),
                    rs.document < ws.documents@.len(),
                    ds@ == ws.declarations(rs.document as int),
                    owner@ == string_bytes(ws.decl(rs).name),
                    0 <= i <= ds@.len(),
                    self.workspace.valid_refs(members@),
                    members@ == r_add_members(ws, t, nn, rs.document as int, owner@, start, i as int),
                decreases ds@.len() - i,
            {
                let d = DeclRef { document: rs.document, declaration: i };
                let decl = &ds[i];
                let member = match &decl.owner_script {
                    Some(o) => crate::text::equal_ignoring_case(o.as_str().as_bytes(), owner),
                    None => false,
                } && decl.container.is_none() && decl.kind != DeclarationKind::Script && decl.kind
                    != DeclarationKind::Parameter && !decl.is_global;
                if member && !self.has_named(&members, self.declaration_name(d)) {
                    members.push(d);
                }
                i = i + 1;
            }
            match &self.workspace.documents[rs.document].semantic.parent_script {
                Some(parent) => {
                    let ghost before = crate::workspace::byte_views(visited@);
                    visited.push(lowered);
                    assert(crate::workspace::byte_views(visited@) =~= before.push(lower_seq(name@)));
                    let pb = parent.as_str().as_bytes();
                    name = crate::text::copy_range(pb, 0, pb.len());
                    assert(pb@.subrange(0, pb@.len() as int) =~= pb@);
                    fuel = fuel - 1;
                },
                None => return members,
            }
        }
        members
    }

    fn imported_values(&self, cur: usize, name: &[u8]) -> (r: Vec<DeclRef>)
        requires
            cur < self.workspace.documents@.len(),
        ensures
            r@ == r_imported_values(self.ws(), self.target, self.nn(), cur as int, name@, self.ws().documents@[cur as int].semantic.imports@.len() as int),
            self.workspace.valid_refs(r@),
    {
        let imports = &self.workspace.documents[cur].semantic.imports;
        let mut out: Vec<DeclRef> = Vec::new();
        let mut k: usize = 0;
        assert(out@ =~= r_imported_values(self.ws(), self.target, self.nn(), cur as int, name@, 0));
        while k < imports.len()
            invariant
                cur < self.workspace.documents@.len(),
                imports@ == self.ws().documents@[cur as int].semantic.imports@,
                0 <= k <= imports@.len(),
                out@ == r_imported_values(self.ws(), self.target, self.nn(), cur as int, name@, k as int),
                self.workspace.valid_refs(out@),
            decreases imports@.len() - k,
        {
            match self.unique_script(imports[k].as_str().as_bytes()) {
                Some(d) => {
                    let mut found = self.select(d.document, &RenamedFilter::Imported(name));
                    let ghost before = out@;
                    let ghost more = found@;
                    out.append(&mut found);
                    assert(out@ =~= r_imported_values(self.ws(), self.target, self.nn(), cur as int, name@, k + 1));
                    assert forall|j: int| 0 <= j < out@.len() implies self.workspace.valid_ref(#[trigger] out@[j]) by {
                        if j < before.len() {
                            assert(out@[j] == before[j]);
                        } else {
                            assert(out@[j] == more[j - before.len()]);
                        }
                    }
                },
                None => {
                    assert(out@ =~= r_imported_values(self.ws(), self.target, self.nn(), cur as int, name@, k + 1));
                },
            }
            k = k + 1;
        }
        out
    }

    /// The struct or global function of an import that answers to `name` (`resolve_imported`).
    pub fn resolve_imported(&self, cur: usize, name: &[u8]) -> (r: Option<DeclRef>)
        requires
            cur < self.workspace.documents@.len(),
        ensures
            r == r_imported(self.ws(), self.target, self.nn(), cur as int, name@),
            r matches Some(d) ==> self.workspace.valid_ref(d),
    {
        let values = self.imported_values(cur, name);
        self.unique_named(&values, name)
    }

    /// The members of the type named `name` after the rename (`members_of_type`).
    pub fn members_of_type(&self, cur: usize, name: &[u8]) -> (r: Vec<DeclRef>)
        requires
            cur < self.workspace.documents@.len(),
        ensures
            r@ == r_members_of_type(self.ws(), self.target, self.nn(), cur as int, name@),
            self.workspace.valid_refs(r@),
    {
        if let Some(s) = self.unique_script(name) {
            return self.members_of(s);
        }
        match self.resolve_imported(cur, name) {
            Some(st) => {
                let decl = &self.workspace.documents[st.document].semantic.declarations[st.declaration];
                if decl.kind == DeclarationKind::Struct {
                    self.select(st.document, &RenamedFilter::Container(decl.name.as_str().as_bytes()))
                } else {
                    Vec::new()
                }
            },
            None => Vec::new(),
        }
    }

    /// What `name` means at `offset` of document `cur` after the rename (`resolve_visible_name`).
    pub fn resolve_visible_name(&self, cur: usize, name: &[u8], offset: usize) -> (r: Option<DeclRef>)
        requires
            cur < self.workspace.documents@.len(),
        ensures
            r == r_visible(self.ws(), self.target, self.nn(), cur as int, name@, offset),
            r matches Some(d) ==> self.workspace.valid_ref(d),
    {
        let scoped = self.select(cur, &RenamedFilter::Scoped(name, offset));
        if let Some(d) = self.unique_named(&scoped, name) {
            return Some(d);
        }
        let top = self.select(cur, &RenamedFilter::TopLevel(name));
        if let Some(d) = self.unique_named(&top, name) {
            return Some(d);
        }
        let script = match &self.workspace.documents[cur].semantic.script_name {
            None => return None,
            Some(sn) => match self.unique_script(sn.as_str().as_bytes()) {
                None => return None,
                Some(s) => s,
            },
        };
        let members = self.members_of(script);
        match self.unique_named(&members, name) {
            Some(d) => Some(d),
            None => self.resolve_imported(cur, name),
        }
    }

    /// The member of what a receiver names (`resolve_qualified_member`).
    pub fn resolve_qualified_member(&self, cur: usize, receiver: &[u8], member: &[u8], offset: usize) -> (r: Option<DeclRef>)
        requires
            cur < self.workspace.documents@.len(),
        ensures
            r == r_qualified(self.ws(), self.target, self.nn(), cur as int, receiver@, member@, offset),
            r matches Some(d) ==> self.workspace.valid_ref(d),
    {
        match self.resolve_visible_name(cur, receiver, offset) {
            Some(rd) => match &self.workspace.documents[rd.document].semantic.declarations[rd.declaration].ty {
                Some(ty) => {
                    let members = self.members_of_type(cur, ty.name.as_str().as_bytes());
                    self.unique_named(&members, member)
                },
                None => None,
            },
            None => match self.unique_script(receiver) {
                Some(s) => {
                    let sname = self.workspace.documents[s.document].semantic.declarations[s.declaration].name.as_str().as_bytes();
                    let globals = self.select(s.document, &RenamedFilter::GlobalOf(sname));
                    self.unique_named(&globals, member)
                },
                None => None,
            },
        }
    }

    /// What an edited occurrence resolves to after the rename (`resolve_occurrence`).
    pub fn resolve_occurrence(&self, cur: usize, o: &SemanticOccurrence) -> (r: Option<DeclRef>)
        requires
            cur < self.workspace.documents@.len(),
        ensures
            r == r_occurrence(self.ws(), self.target, self.nn(), cur as int, *o),
            r matches Some(d) ==> self.workspace.valid_ref(d),
    {
        let nn = self.new_name.as_bytes();
        match &o.receiver {
            Some(e) => match e {
                SemanticExpression::Identifier { name, .. } => self.resolve_qualified_member(
                    cur,
                    name.as_str().as_bytes(),
                    nn,
                    o.byte_offset,
                ),
                _ => None,
            },
            None => match self.resolve_visible_name(cur, nn, o.byte_offset) {
                Some(d) => Some(d),
                None => self.unique_script(nn),
            },
        }
    }
}

} // verus!
