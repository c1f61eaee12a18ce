//! Document symbols: the hierarchy of named declarations of a syntax tree,
//! and the flat, filtered and ordered view of them across the workspace.
use vstd::prelude::*;
use vstd::string::StringSliceAdditionalSpecFns;
use crate::line_index::{LineIndex, TextRange, line_starts_of};
use crate::syntax::{NodeKind, SyntaxNode, field_at, field_position, node_range, node_text, range_of, text};
use crate::text::{lower_seq, string_bytes};
use crate::queries::{Location, LocationView};
use crate::issue_sort::position_before;
use crate::workspace::{WorkspaceIndex, bytes_less};

verus! {

/// What a document symbol is.
#[derive(Clone, Copy, Debug, PartialEq, Eq, Structural)]
pub enum SymbolKind {
    Class,
    Namespace,
    Function,
    Event,
    Property,
    Struct,
    Variable,
}

/// A named declaration with its range, the range of its name, and the
/// declarations inside it.
#[derive(Debug)]
pub struct DocumentSymbol {
    pub name: String,
    pub kind: SymbolKind,
    pub range: TextRange,
    pub selection_range: TextRange,
    pub children: Vec<DocumentSymbol>,
}

/// The symbol kind of a declaration node, if it declares one.
pub open spec fn symbol_kind_of(kind: NodeKind) -> Option<SymbolKind> {
    match kind {
        NodeKind::ScriptDeclaration => Some(SymbolKind::Class),
        NodeKind::StateDeclaration => Some(SymbolKind::Namespace),
        NodeKind::FunctionDefinition | NodeKind::NativeFunctionDeclaration => Some(SymbolKind::Function),
        NodeKind::EventDefinition | NodeKind::NativeEventDeclaration => Some(SymbolKind::Event),
        NodeKind::PropertyDefinition | NodeKind::AutoPropertyDefinition => Some(SymbolKind::Property),
        NodeKind::StructDeclaration => Some(SymbolKind::Struct),
        NodeKind::GroupDeclaration => Some(SymbolKind::Namespace),
        NodeKind::Parameter => Some(SymbolKind::Variable),
        NodeKind::VariableDeclaration => Some(SymbolKind::Variable),
        NodeKind::GuardDeclaration => Some(SymbolKind::Variable),
        NodeKind::CustomEventDeclaration => Some(SymbolKind::Event),
        _ => None,
    }
}

/// A node that gives a symbol: a declaration kind with a readable name.
pub open spec fn is_symbol_node(n: SyntaxNode, b: Seq<u8>) -> bool {
    &&& symbol_kind_of(n.kind) is Some
    &&& field_at(n, "name") < n.children@.len()
    &&& node_text(n.children@[field_at(n, "name")], b) is Some
}

/// The nodes that give the symbols under the first `k` children of a node:
/// a named child that gives a symbol, else the symbols under it.
pub open spec fn symbol_sites(node: SyntaxNode, b: Seq<u8>, k: int) -> Seq<SyntaxNode>
    decreases node, k,
{
    if k <= 0 || k > node.children@.len() {
        Seq::empty()
    } else {
        let c = node.children@[k - 1];
        symbol_sites(node, b, k - 1) + if !c.named {
            Seq::empty()
        } else if is_symbol_node(c, b) {
            seq![c]
        } else {
            symbol_sites(c, b, c.children@.len() as int)
        }
    }
}

/// `s` is the symbol of the node `n`: its name, kind, ranges and children.
pub open spec fn symbol_of(s: DocumentSymbol, n: SyntaxNode, b: Seq<u8>, starts: Seq<usize>) -> bool
    decreases s,
{
    let name = n.children@[field_at(n, "name")];
    let sites = symbol_sites(n, b, n.children@.len() as int);
    &&& Some(string_bytes(s.name)) == node_text(name, b)
    &&& Some(s.kind) == symbol_kind_of(n.kind)
    &&& s.range == node_range(starts, b, n)
    &&& s.selection_range == node_range(starts, b, name)
    &&& s.children@.len() == sites.len()
    &&& forall|i: int| 0 <= i < sites.len() ==> symbol_of(#[trigger] s.children@[i], sites[i], b, starts)
}

/// `out` holds the symbols of the sites, in order.
pub open spec fn symbols_match(out: Seq<DocumentSymbol>, sites: Seq<SyntaxNode>, b: Seq<u8>, starts: Seq<usize>) -> bool {
    out.len() == sites.len() && forall|i: int| 0 <= i < sites.len() ==> symbol_of(#[trigger] out[i], sites[i], b, starts)
}

fn symbol_kind(kind: NodeKind) -> (r: Option<SymbolKind>)
    ensures
        r == symbol_kind_of(kind),
{
    match kind {
        NodeKind::ScriptDeclaration => Some(SymbolKind::Class),
        NodeKind::StateDeclaration => Some(SymbolKind::Namespace),
        NodeKind::FunctionDefinition | NodeKind::NativeFunctionDeclaration => Some(SymbolKind::Function),
        NodeKind::EventDefinition | NodeKind::NativeEventDeclaration => Some(SymbolKind::Event),
        NodeKind::PropertyDefinition | NodeKind::AutoPropertyDefinition => Some(SymbolKind::Property),
        NodeKind::StructDeclaration => Some(SymbolKind::Struct),
        NodeKind::GroupDeclaration => Some(SymbolKind::Namespace),
        NodeKind::Parameter => Some(SymbolKind::Variable),
        NodeKind::VariableDeclaration => Some(SymbolKind::Variable),
        NodeKind::GuardDeclaration => Some(SymbolKind::Variable),
        NodeKind::CustomEventDeclaration => Some(SymbolKind::Event),
        _ => None,
    }
}

proof fn lemma_append_symbols(
    prev: Seq<DocumentSymbol>,
    added: Seq<DocumentSymbol>,
    s1: Seq<SyntaxNode>,
    s2: Seq<SyntaxNode>,
    b: Seq<u8>,
    starts: Seq<usize>,
)
    requires
        symbols_match(prev, s1, b, starts),
        symbols_match(added, s2, b, starts),
    ensures
        symbols_match(prev + added, s1 + s2, b, starts),
{
    assert forall|j: int| 0 <= j < (s1 + s2).len() implies symbol_of(#[trigger] (prev + added)[j], (s1 + s2)[j], b, starts) by {
        if j < s1.len() {
            assert((s1 + s2)[j] == s1[j] && (prev + added)[j] == prev[j]);
        } else {
            assert((s1 + s2)[j] == s2[j - s1.len()] && (prev + added)[j] == added[j - s1.len()]);
        }
    }
}

/// The symbols under the named children of a node (`declaration_children`).
pub fn declaration_children(node: &SyntaxNode, source: &str, index: &LineIndex) -> (r: Vec<DocumentSymbol>)
    requires
        node.fits(source.spec_bytes().len() as int),
        index@ == line_starts_of(source.spec_bytes()),
    ensures
        symbols_match(r@, symbol_sites(*node, source.spec_bytes(), node.children@.len() as int), source.spec_bytes(), index@),
    decreases node,
{
    let ghost b = source.spec_bytes();
    let cs = &node.children;
    let mut out: Vec<DocumentSymbol> = Vec::new();
    let mut k: usize = 0;
    while k < cs.len()
        invariant
            node.fits(b.len() as int),
            b == source.spec_bytes(),
            index@ == line_starts_of(b),
            cs@ == node.children@,
            0 <= k <= cs@.len(),
            symbols_match(out@, symbol_sites(*node, b, k as int), b, index@),
        decreases cs@.len() - k,
    {
        let c = &cs[k];
        assert(cs@[k as int].fits(b.len() as int));
        let ghost before = out@;
        if c.named {
            let kind = symbol_kind(c.kind);
            let name_pos = field_position(c, "name");
            let name = if kind.is_some() && name_pos < c.children.len() {
                assert(c.children@[name_pos as int].fits(b.len() as int));
                text(&c.children[name_pos], source)
            } else {
                None
            };
            match (kind, name) {
                (Some(kind), Some(name)) => {
                    let children = declaration_children(c, source, index);
                    let symbol = DocumentSymbol {
                        name,
                        kind,
                        range: range_of(c, source, index),
                        selection_range: range_of(&c.children[name_pos], source, index),
                        children,
                    };
                    assert(is_symbol_node(*c, b));
                    assert(symbol_of(symbol, *c, b, index@));
                    out.push(symbol);
                    proof {
                        assert(out@ =~= before + seq![symbol]);
                        lemma_append_symbols(before, seq![symbol], symbol_sites(*node, b, k as int), seq![*c], b, index@);
                    }
                },
                _ => {
                    assert(!is_symbol_node(*c, b));
                    let mut inner = declaration_children(c, source, index);
                    let ghost added = inner@;
                    out.append(&mut inner);
                    proof {
                        assert(out@ =~= before + added);
                        lemma_append_symbols(
                            before,
                            added,
                            symbol_sites(*node, b, k as int),
                            symbol_sites(*c, b, c.children@.len() as int),
                            b,
                            index@,
                        );
                    }
                },
            }
        } else {
            assert(symbol_sites(*node, b, k + 1) =~= symbol_sites(*node, b, k as int));
        }
        k = k + 1;
    }
    out
}

/// A symbol of the workspace: its name, kind, the location of its name, and
/// the name of the symbol it lies in.
#[derive(Debug)]
pub struct SymbolInformation {
    pub name: String,
    pub kind: SymbolKind,
    pub location: Location,
    pub container_name: Option<String>,
}

pub struct SymbolInformationView {
    pub name: Seq<u8>,
    pub kind: SymbolKind,
    pub location: LocationView,
    pub container_name: Option<Seq<u8>>,
}

impl View for SymbolInformation {
    type V = SymbolInformationView;

    open spec fn view(&self) -> SymbolInformationView {
        SymbolInformationView {
            name: string_bytes(self.name),
            kind: self.kind,
            location: self.location@,
            container_name: match self.container_name {
                Some(c) => Some(string_bytes(c)),
                None => None,
            },
        }
    }
}

pub open spec fn information_views(s: Seq<SymbolInformation>) -> Seq<SymbolInformationView> {
    s.map_values(|i: SymbolInformation| i@)
}

/// Text that holds `needle` somewhere.
pub open spec fn contains_text(hay: Seq<u8>, needle: Seq<u8>) -> bool {
    exists|i: int| 0 <= i && i + needle.len() <= hay.len() && #[trigger] hay.subrange(i, i + needle.len()) == needle
}

/// The flat view of a symbol and of those inside it whose lowercased names
/// contain `query`, each with the name of the symbol around it.
pub open spec fn flat_symbol(s: DocumentSymbol, uri: Seq<u8>, container: Option<Seq<u8>>, query: Seq<u8>) -> Seq<
    SymbolInformationView,
>
    decreases s, 1int, 0int,
{
    (if contains_text(lower_seq(string_bytes(s.name)), query) {
        seq![
            SymbolInformationView {
                name: string_bytes(s.name),
                kind: s.kind,
                location: LocationView { uri, range: s.selection_range },
                container_name: container,
            },
        ]
    } else {
        Seq::empty()
    }) + flat_symbols(s.children@, uri, Some(string_bytes(s.name)), query, s.children@.len() as int)
}

/// The flat view of the first `k` symbols of a list.
pub open spec fn flat_symbols(
    l: Seq<DocumentSymbol>,
    uri: Seq<u8>,
    container: Option<Seq<u8>>,
    query: Seq<u8>,
    k: int,
) -> Seq<SymbolInformationView>
    decreases l, 0int, k,
{
    if k <= 0 || k > l.len() {
        Seq::empty()
    } else {
        flat_symbols(l, uri, container, query, k - 1) + flat_symbol(l[k - 1], uri, container, query)
    }
}

/// The flat views of the symbols of the first `n` documents.
pub open spec fn workspace_flat(ws: WorkspaceIndex, query: Seq<u8>, n: int) -> Seq<SymbolInformationView>
    decreases n,
{
    if n <= 0 || n > ws.documents@.len() {
        Seq::empty()
    } else {
        let d = ws.documents@[n - 1].semantic;
        workspace_flat(ws, query, n - 1) + flat_symbols(d.symbols@, string_bytes(d.uri), None, query, d.symbols@.len() as int)
    }
}

/// The order of workspace symbols: by lowercased name, then URI, then the
/// start of the name.
pub open spec fn symbol_before(a: SymbolInformationView, b: SymbolInformationView) -> bool {
    if lower_seq(a.name) != lower_seq(b.name) {
        bytes_less(lower_seq(a.name), lower_seq(b.name))
    } else if a.location.uri != b.location.uri {
        bytes_less(a.location.uri, b.location.uri)
    } else {
        position_before(a.location.range.start, b.location.range.start)
    }
}

/// The first position from `j` on of an entry that `x` comes before; the
/// length when none is.
pub open spec fn first_after_symbol(s: Seq<SymbolInformationView>, x: SymbolInformationView, j: int) -> int
    decreases s.len() - j,
{
    if j < 0 || j >= s.len() {
        s.len() as int
    } else if symbol_before(x, s[j]) {
        j
    } else {
        first_after_symbol(s, x, j + 1)
    }
}

/// The entries in order, entries of the same key keeping the order they
/// came in (a stable sort).
pub open spec fn sorted_symbols(s: Seq<SymbolInformationView>) -> Seq<SymbolInformationView>
    decreases s.len(),
{
    if s.len() == 0 {
        s
    } else {
        let sorted = sorted_symbols(s.drop_last());
        sorted.insert(first_after_symbol(sorted, s.last(), 0), s.last())
    }
}

fn piece_is(hay: &Vec<u8>, needle: &Vec<u8>, i: usize) -> (r: bool)
    requires
        i + needle@.len() <= hay@.len(),
    ensures
        r == (hay@.subrange(i as int, i + needle@.len()) == needle@),
{
    let n = needle.len();
    let h = hay.len();
    assert(i + n <= h);
    let piece = crate::text::copy_range(hay.as_slice(), i, i + n);
    crate::text::bytes_equal(piece.as_slice(), needle.as_slice())
}

fn contains_at(hay: &Vec<u8>, needle: &Vec<u8>) -> (r: bool)
    ensures
        r == contains_text(hay@, needle@),
{
    if needle.len() > hay.len() {
        return false;
    }
    let last = hay.len() - needle.len();
    let mut i: usize = 0;
    while i < last
        invariant
            last == hay@.len() - needle@.len(),
            0 <= i <= last,
            forall|k: int| 0 <= k < i ==> #[trigger] hay@.subrange(k, k + needle@.len()) != needle@,
        decreases last - i,
    {
        if piece_is(hay, needle, i) {
            return true;
        }
        i = i + 1;
    }
    if piece_is(hay, needle, last) {
        return true;
    }
    proof {
        assert forall|k: int| 0 <= k && k + needle@.len() <= hay@.len() implies #[trigger] hay@.subrange(
            k,
            k + needle@.len(),
        ) != needle@ by {
            if k < last {
            } else {
                assert(k == last);
            }
        }
    }
    false
}

fn copy_name(s: &Option<&String>) -> (r: Option<String>)
    ensures
        match *s {
            Some(c) => r matches Some(x) && string_bytes(x) == string_bytes(*c),
            None => r is None,
        },
{
    match s {
        Some(c) => Some((*c).clone()),
        None => None,
    }
}

/// Appends the flat view of a symbol and of the symbols inside it.
fn flatten_symbol(
    s: &DocumentSymbol,
    uri: &String,
    container: Option<&String>,
    query: &Vec<u8>,
    output: &mut Vec<SymbolInformation>,
)
    ensures
        information_views(final(output)@) == information_views(old(output)@) + flat_symbol(
            *s,
            string_bytes(*uri),
            match container {
                Some(c) => Some(string_bytes(*c)),
                None => None,
            },
            query@,
        ),
    decreases s, 1int, 0int,
{
    let ghost start = information_views(output@);
    let nb = s.name.as_str().as_bytes();
    let lowered = crate::text::lowercase_range(nb, 0, nb.len());
    assert(nb@.subrange(0, nb@.len() as int) =~= string_bytes(s.name));
    if contains_at(&lowered, query) {
        let info = SymbolInformation {
            name: s.name.clone(),
            kind: s.kind,
            location: Location { uri: uri.clone(), range: s.selection_range },
            container_name: copy_name(&container),
        };
        output.push(info);
    }
    let ghost middle = information_views(output@);
    proof {
        assert(information_views(output@) =~= start + if contains_text(lower_seq(string_bytes(s.name)), query@) {
            seq![
                SymbolInformationView {
                    name: string_bytes(s.name),
                    kind: s.kind,
                    location: LocationView { uri: string_bytes(*uri), range: s.selection_range },
                    container_name: match container {
                        Some(c) => Some(string_bytes(*c)),
                        None => None,
                    },
                },
            ]
        } else {
            Seq::empty()
        });
    }
    flatten_symbols(&s.children, uri, Some(&s.name), query, output);
    proof {
        let own = middle.subrange(start.len() as int, middle.len() as int);
        assert(information_views(output@) =~= start + own + flat_symbols(
            s.children@,
            string_bytes(*uri),
            Some(string_bytes(s.name)),
            query@,
            s.children@.len() as int,
        ));
    }
}

/// Appends the flat view of a list of symbols (`flatten_symbols`).
fn flatten_symbols(
    l: &Vec<DocumentSymbol>,
    uri: &String,
    container: Option<&String>,
    query: &Vec<u8>,
    output: &mut Vec<SymbolInformation>,
)
    ensures
        information_views(final(output)@) == information_views(old(output)@) + flat_symbols(
            l@,
            string_bytes(*uri),
            match container {
                Some(c) => Some(string_bytes(*c)),
                None => None,
            },
            query@,
            l@.len() as int,
        ),
    decreases l@, 0int, l@.len(),
{
    let ghost c = match container {
        Some(c) => Some(string_bytes(*c)),
        None => None,
    };
    let ghost start = information_views(output@);
    let mut k: usize = 0;
    assert(information_views(output@) =~= start + flat_symbols(l@, string_bytes(*uri), c, query@, 0));
    while k < l.len()
        invariant
            0 <= k <= l@.len(),
            c == match container {
                Some(cc) => Some(string_bytes(*cc)),
                None => None,
            },
            information_views(output@) == start + flat_symbols(l@, string_bytes(*uri), c, query@, k as int),
        decreases l@.len() - k,
    {
        flatten_symbol(&l[k], uri, container, query, output);
        assert(information_views(output@) =~= start + flat_symbols(l@, string_bytes(*uri), c, query@, k + 1));
        k = k + 1;
    }
}

fn compare_symbol_key(a: &SymbolInformation, b: &SymbolInformation) -> (r: bool)
    ensures
        r == symbol_before(a@, b@),
{
    let ab = a.name.as_str().as_bytes();
    let bb = b.name.as_str().as_bytes();
    let la = crate::text::lowercase_range(ab, 0, ab.len());
    let lb = crate::text::lowercase_range(bb, 0, bb.len());
    assert(ab@.subrange(0, ab@.len() as int) =~= ab@);
    assert(bb@.subrange(0, bb@.len() as int) =~= bb@);
    let n = crate::issue_sort::less_slices(la.as_slice(), lb.as_slice());
    if n != 0 {
        return n < 0;
    }
    let u = crate::issue_sort::less_slices(a.location.uri.as_str().as_bytes(), b.location.uri.as_str().as_bytes());
    if u != 0 {
        return u < 0;
    }
    crate::issue_sort::position_before_exec(a.location.range.start, b.location.range.start)
}

impl WorkspaceIndex {
    /// The symbols of the workspace whose lowercased names contain the
    /// lowercased query, ordered by name, URI and position (`workspace_symbols`).
    pub fn workspace_symbols(&self, query: &str) -> (r: Vec<SymbolInformation>)
        ensures
            information_views(r@) == sorted_symbols(
                workspace_flat(*self, lower_seq(query.spec_bytes()), self.documents@.len() as int),
            ),
    {
        let qb = query.as_bytes();
        let q = crate::text::lowercase_range(qb, 0, qb.len());
        assert(qb@.subrange(0, qb@.len() as int) =~= qb@);
        let mut flat: Vec<SymbolInformation> = Vec::new();
        let mut j: usize = 0;
        assert(information_views(flat@) =~= workspace_flat(*self, q@, 0));
        while j < self.documents.len()
            invariant
                0 <= j <= self.documents@.len(),
                q@ == lower_seq(query.spec_bytes()),
                information_views(flat@) == workspace_flat(*self, q@, j as int),
            decreases self.documents@.len() - j,
        {
            let d = &self.documents[j].semantic;
            flatten_symbols(&d.symbols, &d.uri, None, &q, &mut flat);
            j = j + 1;
        }
        let ghost input = information_views(flat@);
        let mut sorted: Vec<SymbolInformation> = Vec::new();
        let mut rest = flat;
        let ghost mut taken: Seq<SymbolInformationView> = Seq::empty();
        assert(taken + information_views(rest@) =~= input);
        while rest.len() > 0
            invariant
                taken + information_views(rest@) == input,
                information_views(sorted@) == sorted_symbols(taken),
            decreases rest@.len(),
        {
            let ghost before_rest = information_views(rest@);
            let x = rest.remove(0);
            proof {
                assert(before_rest =~= seq![x@] + information_views(rest@));
                assert(taken.push(x@) + information_views(rest@) =~= taken + before_rest);
            }
            let ghost sv = information_views(sorted@);
            let mut i: usize = 0;
            while i < sorted.len() && !compare_symbol_key(&x, &sorted[i])
                invariant
                    0 <= i <= sorted@.len(),
                    sv == information_views(sorted@),
                    first_after_symbol(sv, x@, i as int) == first_after_symbol(sv, x@, 0),
                decreases sorted@.len() - i,
            {
                i = i + 1;
            }
            let ghost xv = x@;
            sorted.insert(i, x);
            proof {
                assert(taken.push(xv).drop_last() =~= taken);
                assert(information_views(sorted@) =~= sv.insert(i as int, xv));
                taken = taken.push(xv);
            }
        }
        assert(taken =~= input);
        sorted
    }

    /// The symbols of the document with a URI (`document_symbols`).
    pub fn document_symbols(&self, uri: &str) -> (r: Option<&Vec<DocumentSymbol>>)
        ensures
            ({
                let c = crate::issue_sort::document_with_uri(*self, uri.spec_bytes(), 0);
                if c < self.documents@.len() {
                    r == Some(&self.documents@[c].semantic.symbols)
                } else {
                    r is None
                }
            }),
    {
        match self.document_index(uri) {
            Some(c) => Some(&self.documents[c].semantic.symbols),
            None => None,
        }
    }
}

} // verus!
