//! The semantic model of a document read from its syntax tree: script
//! header, imports, declarations, occurrences, calls and type checks.
use vstd::prelude::*;
use vstd::string::StringSliceAdditionalSpecFns;
use crate::call_sites::{call_views, calls_of, collect_call_sites, deduplicated_calls, order_calls, sorted_calls};
use crate::declarations::{collect, collected, declaration_views, field_text, field_text_of};
use crate::line_index::{LineIndex, line_starts_of};
use crate::occurrences::{collect_occurrences, name_ranges, occurrence_sites, occurrences_match, root_context};
use crate::semantic::{SemanticOccurrenceKind, opt_bytes};
use crate::structure::ByteRange;
use crate::syntax::{NodeKind, SyntaxNode};
use crate::text::string_bytes;
use crate::type_checks::{checks_match, collect_type_checks, sites};
use crate::workspace::SemanticDocument;
use crate::member_accesses::{access_sites, accesses_match, collect_member_accesses};
use crate::symbols::{declaration_children, symbol_sites, symbols_match};

verus! {

/// The script header and imports that the first `k` children of the root
/// declare: the last script declaration names the script and its parent,
/// each import with a module adds it.
pub struct Header {
    pub script: Option<Seq<u8>>,
    pub parent: Option<Seq<u8>>,
    pub imports: Seq<Seq<u8>>,
}

pub open spec fn header_upto(cs: Seq<SyntaxNode>, k: int, b: Seq<u8>) -> Header
    decreases k,
{
    if k <= 0 || k > cs.len() {
        Header { script: None, parent: None, imports: Seq::empty() }
    } else {
        let h = header_upto(cs, k - 1, b);
        let c = cs[k - 1];
        if !c.named {
            h
        } else if c.kind == NodeKind::ScriptDeclaration {
            Header { script: field_text_of(c, "name", b), parent: field_text_of(c, "parent", b), ..h }
        } else if c.kind == NodeKind::ImportDeclaration && field_text_of(c, "module", b) is Some {
            Header { imports: h.imports.push(field_text_of(c, "module", b).unwrap()), ..h }
        } else {
            h
        }
    }
}

pub open spec fn texts_of(v: Seq<String>) -> Seq<Seq<u8>> {
    v.map_values(|s: String| string_bytes(s))
}

/// The semantic model of a document with its syntax tree (`extract`, after
/// parsing); a document the parser could not read has its text only.
pub fn extract(uri: String, source: &str, root: Option<&SyntaxNode>) -> (d: SemanticDocument)
    requires
        root matches Some(r) ==> r.fits(source.spec_bytes().len() as int),
    ensures
        d.uri == uri,
        string_bytes(d.text) == source.spec_bytes(),
        root is None ==> d.script_name is None && d.parent_script is None && d.imports@.len() == 0
            && d.member_accesses@.len() == 0 && d.symbols@.len() == 0
            && d.declarations@.len() == 0 && d.occurrences@.len() == 0 && d.call_sites@.len() == 0
            && d.type_checks@.len() == 0,
        root matches Some(r) ==> ({
            let b = source.spec_bytes();
            let starts = line_starts_of(b);
            let h = header_upto(r.children@, r.children@.len() as int, b);
            &&& opt_bytes(d.script_name) == h.script
            &&& opt_bytes(d.parent_script) == h.parent
            &&& texts_of(d.imports@) == h.imports
            &&& declaration_views(d.declarations@) == collected(
                *r,
                b,
                starts,
                h.script,
                None,
                ByteRange { start: r.start, end: r.end },
            )
            &&& occurrences_match(
                d.occurrences@,
                occurrence_sites(*r, b, starts, name_ranges(d.declarations@), root_context()),
                b,
                starts,
            )
            &&& call_views(d.call_sites@) == deduplicated_calls(
                sorted_calls(calls_of(*r, b, starts, name_ranges(d.declarations@))),
            )
            &&& checks_match(d.type_checks@, sites(*r, b, None), b, starts)
            &&& accesses_match(d.member_accesses@, access_sites(*r, b), b, starts)
            &&& symbols_match(d.symbols@, symbol_sites(*r, b, r.children@.len() as int), b, starts)
        }),
{
    let text = crate::text::owned(source);
    let root = match root {
        Some(r) => r,
        None => {
            return SemanticDocument {
                uri,
                text,
                script_name: None,
                parent_script: None,
                imports: Vec::new(),
                declarations: Vec::new(),
                occurrences: Vec::new(),
                call_sites: Vec::new(),
                member_accesses: Vec::new(),
                type_checks: Vec::new(),
                symbols: Vec::new(),
            };
        },
    };
    let ghost b = source.spec_bytes();
    let index = LineIndex::new(source);
    let mut script_name: Option<String> = None;
    let mut parent_script: Option<String> = None;
    let mut imports: Vec<String> = Vec::new();
    let mut i: usize = 0;
    assert(texts_of(imports@) =~= Seq::<Seq<u8>>::empty());
    while i < root.children.len()
        invariant
            root.fits(b.len() as int),
            b == source.spec_bytes(),
            0 <= i <= root.children@.len(),
            ({
                let h = header_upto(root.children@, i as int, b);
                &&& opt_bytes(script_name) == h.script
                &&& opt_bytes(parent_script) == h.parent
                &&& texts_of(imports@) == h.imports
            }),
        decreases root.children@.len() - i,
    {
        let child = &root.children[i];
        assert(root.children@[i as int].fits(b.len() as int));
        if child.named {
            if child.kind == NodeKind::ScriptDeclaration {
                script_name = field_text(child, "name", source);
                parent_script = field_text(child, "parent", source);
            } else if child.kind == NodeKind::ImportDeclaration {
                match field_text(child, "module", source) {
                    Some(module) => {
                        let ghost before = texts_of(imports@);
                        imports.push(module);
                        assert(texts_of(imports@) =~= before.push(string_bytes(module)));
                    },
                    None => {},
                }
            }
        }
        i = i + 1;
    }
    let mut declarations = Vec::new();
    collect(root, source, &index, &script_name, &None, ByteRange { start: root.start, end: root.end }, &mut declarations);
    proof {
        assert(declaration_views(Seq::<crate::semantic::Declaration>::empty()) =~= Seq::empty());
        assert(declaration_views(declarations@) =~= declaration_views(Seq::<crate::semantic::Declaration>::empty())
            + collected(*root, b, index@, opt_bytes(script_name), opt_bytes(None::<String>), ByteRange {
                start: root.start,
                end: root.end,
            }));
    }
    let mut occurrences = Vec::new();
    collect_occurrences(
        root,
        source,
        &index,
        &declarations,
        SemanticOccurrenceKind::Reference,
        false,
        false,
        None,
        &mut occurrences,
    );
    assert(occurrences@.subrange(0, occurrences@.len() as int) =~= occurrences@);
    let mut calls = Vec::new();
    collect_call_sites(root, source, &index, &declarations, &mut calls);
    assert(call_views(calls@) =~= call_views(Seq::<crate::semantic::SemanticCallSite>::empty()) + calls_of(
        *root,
        b,
        index@,
        name_ranges(declarations@),
    ));
    let mut member_accesses = Vec::new();
    collect_member_accesses(root, source, &index, &mut member_accesses);
    assert(member_accesses@.subrange(0, member_accesses@.len() as int) =~= member_accesses@);
    let symbols = declaration_children(root, source, &index);
    let call_sites = order_calls(calls);
    let type_checks = collect_type_checks(root, source, &index);
    SemanticDocument {
        uri,
        text,
        script_name,
        parent_script,
        imports,
        declarations,
        occurrences,
        call_sites,
        member_accesses,
        type_checks,
        symbols,
    }
}

} // verus!
