//! Declarations read from the syntax tree: scripts, properties, variables,
//! functions, events, structs, states, parameters and guards, with their
//! types, parameters, scopes, containers and documentation comments.
use vstd::prelude::*;
use vstd::utf8::*;
use vstd::string::StringSliceAdditionalSpecFns;
use crate::expression::{type_ref, type_ref_view};
use crate::line_index::{LineIndex, line_starts_of};
use crate::semantic::{
    Declaration, DeclarationKind, DeclarationView, Parameter, ParameterView, TypeRefView, opt_bytes,
};
use crate::structure::{ByteRange, trim_end_whitespace, whitespace_before, whitespace_before_exec};
use crate::syntax::{
    NodeKind, SyntaxNode, field_at, field_child, field_position, node_range, node_text, range_of,
    text,
};
use crate::text::{
    copy_range, same_ignoring_case, str_equal_ignoring_case, string_bytes, string_from_utf8,
    string_from_valid_range,
};

verus! {

broadcast use vstd::utf8::group_utf8_lib;

/// The declaration kind of a node kind, if it declares a name.
pub open spec fn declaration_kind_of(k: NodeKind) -> Option<DeclarationKind> {
    match k {
        NodeKind::ScriptDeclaration => Some(DeclarationKind::Script),
        NodeKind::PropertyDefinition | NodeKind::AutoPropertyDefinition => Some(DeclarationKind::Property),
        NodeKind::VariableDeclaration | NodeKind::StructMember => Some(DeclarationKind::Variable),
        NodeKind::FunctionDefinition | NodeKind::NativeFunctionDeclaration => Some(DeclarationKind::Function),
        NodeKind::EventDefinition | NodeKind::NativeEventDeclaration | NodeKind::CustomEventDeclaration => Some(
            DeclarationKind::Event,
        ),
        NodeKind::StructDeclaration => Some(DeclarationKind::Struct),
        NodeKind::StateDeclaration => Some(DeclarationKind::State),
        NodeKind::Parameter => Some(DeclarationKind::Parameter),
        NodeKind::GuardDeclaration => Some(DeclarationKind::Guard),
        _ => None,
    }
}

fn declaration_kind(k: NodeKind) -> (r: Option<DeclarationKind>)
    ensures
        r == declaration_kind_of(k),
{
    match k {
        NodeKind::ScriptDeclaration => Some(DeclarationKind::Script),
        NodeKind::PropertyDefinition | NodeKind::AutoPropertyDefinition => Some(DeclarationKind::Property),
        NodeKind::VariableDeclaration | NodeKind::StructMember => Some(DeclarationKind::Variable),
        NodeKind::FunctionDefinition | NodeKind::NativeFunctionDeclaration => Some(DeclarationKind::Function),
        NodeKind::EventDefinition | NodeKind::NativeEventDeclaration | NodeKind::CustomEventDeclaration => Some(
            DeclarationKind::Event,
        ),
        NodeKind::StructDeclaration => Some(DeclarationKind::Struct),
        NodeKind::StateDeclaration => Some(DeclarationKind::State),
        NodeKind::Parameter => Some(DeclarationKind::Parameter),
        NodeKind::GuardDeclaration => Some(DeclarationKind::Guard),
        _ => None,
    }
}

/// Function and event bodies, which scope the declarations inside them.
pub open spec fn is_scope_kind(k: NodeKind) -> bool {
    k == NodeKind::FunctionDefinition || k == NodeKind::EventDefinition || k
        == NodeKind::NativeFunctionDeclaration || k == NodeKind::NativeEventDeclaration
}

/// Declarations whose name becomes the container of the declarations inside.
pub open spec fn is_container_kind(k: NodeKind) -> bool {
    is_scope_kind(k) || k == NodeKind::StateDeclaration || k == NodeKind::StructDeclaration || k
        == NodeKind::PropertyDefinition
}

/// The text of the child under a field.
pub open spec fn field_text_of(node: SyntaxNode, field: &str, b: Seq<u8>) -> Option<Seq<u8>> {
    match field_child(node, field) {
        Some(c) => node_text(c, b),
        None => None,
    }
}

/// Whether some child has a kind.
pub open spec fn has_child_kind(node: SyntaxNode, k: NodeKind) -> bool {
    exists|i: int| 0 <= i < node.children@.len() && (#[trigger] node.children@[i]).kind == k
}

/// The declared type: the `type` field, else the `return_type` field.
pub open spec fn declared_type(node: SyntaxNode, b: Seq<u8>) -> Option<TypeRefView> {
    let from_type = match field_child(node, "type") {
        Some(t) => type_ref_view(t, b),
        None => None,
    };
    match from_type {
        Some(t) => Some(t),
        None => match field_child(node, "return_type") {
            Some(t) => type_ref_view(t, b),
            None => None,
        },
    }
}

/// The parameter that a parameter-list child declares, if it has a name and
/// a type.
pub open spec fn parameter_of(c: SyntaxNode, b: Seq<u8>) -> Option<ParameterView> {
    if c.named && c.kind == NodeKind::Parameter {
        match (field_text_of(c, "name", b), field_child(c, "type")) {
            (Some(name), Some(t)) => match type_ref_view(t, b) {
                Some(ty) => Some(
                    ParameterView { name, ty, has_default: field_child(c, "default") is Some },
                ),
                None => None,
            },
            _ => None,
        }
    } else {
        None
    }
}

/// The parameters declared among the first `k` children of a parameter list.
pub open spec fn parameters_upto(cs: Seq<SyntaxNode>, k: int, b: Seq<u8>) -> Seq<ParameterView>
    decreases k,
{
    if k <= 0 || k > cs.len() {
        Seq::empty()
    } else {
        let rest = parameters_upto(cs, k - 1, b);
        match parameter_of(cs[k - 1], b) {
            Some(p) => rest.push(p),
            None => rest,
        }
    }
}

pub open spec fn parameters_of(node: SyntaxNode, b: Seq<u8>) -> Seq<ParameterView> {
    match field_child(node, "parameters") {
        Some(p) => parameters_upto(p.children@, p.children@.len() as int, b),
        None => Seq::empty(),
    }
}

/// Length of the Unicode whitespace character that starts at `start`, or 0.
pub open spec fn whitespace_after(s: Seq<u8>, start: int, end: int) -> int {
    if start < end && (s[start] == 32 || (9 <= s[start] && s[start] <= 13)) {
        1
    } else if start + 1 < end && s[start] == 0xC2 && (s[start + 1] == 0x85 || s[start + 1] == 0xA0) {
        2
    } else if start + 2 < end && ((s[start] == 0xE1 && s[start + 1] == 0x9A && s[start + 2] == 0x80)
        || (s[start] == 0xE2 && s[start + 1] == 0x80 && ((0x80 <= s[start + 2] && s[start + 2]
        <= 0x8A) || s[start + 2] == 0xA8 || s[start + 2] == 0xA9 || s[start + 2] == 0xAF)) || (
    s[start] == 0xE2 && s[start + 1] == 0x81 && s[start + 2] == 0x9F) || (s[start] == 0xE3
        && s[start + 1] == 0x80 && s[start + 2] == 0x80)) {
        3
    } else {
        0
    }
}

/// Start of `s[start..end]` with leading Unicode whitespace removed.
pub open spec fn trim_start_whitespace(s: Seq<u8>, start: int, end: int) -> int
    decreases end - start,
{
    let w = whitespace_after(s, start, end);
    if w > 0 && start + w <= end {
        trim_start_whitespace(s, start + w, end)
    } else {
        start
    }
}

/// Skipping leading whitespace keeps the rest of valid UTF-8 valid.
proof fn lemma_trim_start_valid(b: Seq<u8>, i: int, end: int)
    requires
        0 <= i <= end <= b.len(),
        valid_utf8(b.subrange(i, b.len() as int)),
    ensures
        valid_utf8(b.subrange(trim_start_whitespace(b, i, end), b.len() as int)),
        i <= trim_start_whitespace(b, i, end) <= end,
    decreases end - i,
{
    let w = whitespace_after(b, i, end);
    if w > 0 && i + w <= end {
        let c = b.subrange(i, b.len() as int);
        assert(c[0] == b[i]);
        assert(length_of_first_scalar(c) == w);
        assert(pop_first_scalar(c) =~= b.subrange(i + w, b.len() as int));
        lemma_trim_start_valid(b, i + w, end);
    }
}

/// Trailing whitespace is trimmed whole characters at a time: the trimmed
/// end is the original end or the first byte of a whitespace character.
proof fn lemma_trim_end_first(b: Seq<u8>, s: int, end: int)
    requires
        0 <= s <= end <= b.len(),
    ensures
        s <= trim_end_whitespace(b, s, end) <= end,
        trim_end_whitespace(b, s, end) == end || !is_continuation_byte(
            b[trim_end_whitespace(b, s, end)],
        ),
    decreases end - s,
{
    let w = whitespace_before(b, s, end);
    if w > 0 && end - w >= s {
        lemma_trim_end_first(b, s, end - w);
    }
}

/// The last `{` before `i`, or -1.
pub open spec fn last_brace(b: Seq<u8>, i: int) -> int
    decreases i,
{
    if i <= 0 || i > b.len() {
        -1
    } else if b[i - 1] == 123 {
        i - 1
    } else {
        last_brace(b, i - 1)
    }
}

/// The documentation comment right before a declaration: a `{...}` block
/// that only whitespace separates from it, with its content trimmed, when
/// that is not empty.
pub open spec fn documentation_of(b: Seq<u8>, start: int) -> Option<(int, int)> {
    if !(0 <= start <= b.len()) || !valid_utf8(b.subrange(0, start)) {
        None
    } else {
        let e = trim_end_whitespace(b, 0, start);
        if e == 0 || b[e - 1] != 125 {
            None
        } else {
            let o = last_brace(b, e - 1);
            if o < 0 {
                None
            } else {
                let s = trim_start_whitespace(b, o + 1, e - 1);
                let t = trim_end_whitespace(b, s, e - 1);
                if s < t {
                    Some((s, t))
                } else {
                    None
                }
            }
        }
    }
}

/// The declaration that a node makes, given the enclosing script, the
/// enclosing container and the scope.
pub open spec fn declaration_view(
    node: SyntaxNode,
    b: Seq<u8>,
    starts: Seq<usize>,
    script: Option<Seq<u8>>,
    container: Option<Seq<u8>>,
    scope: ByteRange,
) -> Option<DeclarationView> {
    match (declaration_kind_of(node.kind), field_child(node, "name")) {
        (Some(kind), Some(name_node)) => match node_text(name_node, b) {
            Some(name) => {
                let is_const = has_child_kind(node, NodeKind::ConstKeyword);
                Some(
                    DeclarationView {
                        name,
                        kind,
                        ty: declared_type(node, b),
                        parameters: parameters_of(node, b),
                        owner_script: script,
                        container,
                        selection_range: node_range(starts, b, name_node),
                        scope,
                        documentation: match documentation_of(b, node.start as int) {
                            Some((s, t)) => Some(b.subrange(s, t)),
                            None => None,
                        },
                        is_const,
                        is_read_only: is_const || (field_text_of(node, "kind", b) matches Some(k)
                            && same_ignoring_case(k, "AutoReadOnly".spec_bytes())),
                        is_global: has_child_kind(node, NodeKind::GlobalKeyword),
                    },
                )
            },
            None => None,
        },
        _ => None,
    }
}

/// The declarations of a subtree in document order.
pub open spec fn collected(
    node: SyntaxNode,
    b: Seq<u8>,
    starts: Seq<usize>,
    script: Option<Seq<u8>>,
    container: Option<Seq<u8>>,
    enclosing: ByteRange,
) -> Seq<DeclarationView>
    decreases node, 0int,
{
    let scope = if is_scope_kind(node.kind) {
        ByteRange { start: node.start, end: node.end }
    } else {
        enclosing
    };
    let here = match declaration_view(node, b, starts, script, container, scope) {
        Some(d) => seq![d],
        None => Seq::empty(),
    };
    let nested = if is_container_kind(node.kind) {
        match field_text_of(node, "name", b) {
            Some(n) => Some(n),
            None => container,
        }
    } else {
        container
    };
    here + collected_upto(node.children@, node.children@.len() as int, b, starts, script, nested, scope)
}

/// The declarations of the first `k` named children.
pub open spec fn collected_upto(
    cs: Seq<SyntaxNode>,
    k: int,
    b: Seq<u8>,
    starts: Seq<usize>,
    script: Option<Seq<u8>>,
    container: Option<Seq<u8>>,
    scope: ByteRange,
) -> Seq<DeclarationView>
    decreases cs, k,
{
    if k <= 0 || k > cs.len() {
        Seq::empty()
    } else {
        let rest = collected_upto(cs, k - 1, b, starts, script, container, scope);
        if cs[k - 1].named {
            rest + collected(cs[k - 1], b, starts, script, container, scope)
        } else {
            rest
        }
    }
}

/// The views of declarations.
pub open spec fn declaration_views(ds: Seq<Declaration>) -> Seq<DeclarationView> {
    ds.map_values(|d: Declaration| d@)
}

pub fn clone_text(o: &Option<String>) -> (r: Option<String>)
    ensures
        r == *o,
{
    match o {
        Some(s) => Some(s.clone()),
        None => None,
    }
}

fn child_of_kind(node: &SyntaxNode, k: NodeKind) -> (r: bool)
    ensures
        r == has_child_kind(*node, k),
{
    let mut i: usize = 0;
    while i < node.children.len()
        invariant
            0 <= i <= node.children@.len(),
            forall|j: int| 0 <= j < i ==> (#[trigger] node.children@[j]).kind != k,
        decreases node.children@.len() - i,
    {
        if node.children[i].kind == k {
            return true;
        }
        i = i + 1;
    }
    false
}

/// The text of the child under a field.
pub fn field_text(node: &SyntaxNode, field: &str, source: &str) -> (r: Option<String>)
    requires
        node.fits(source.spec_bytes().len() as int),
    ensures
        r.is_some() == field_text_of(*node, field, source.spec_bytes()).is_some(),
        r matches Some(s) ==> Some(string_bytes(s)) == field_text_of(*node, field, source.spec_bytes()),
{
    let k = field_position(node, field);
    if k < node.children.len() {
        assert(node.children@[k as int].fits(source.spec_bytes().len() as int));
        text(&node.children[k], source)
    } else {
        None
    }
}

fn parameter(child: &SyntaxNode, source: &str) -> (r: Option<Parameter>)
    requires
        child.fits(source.spec_bytes().len() as int),
    ensures
        r.is_some() == parameter_of(*child, source.spec_bytes()).is_some(),
        r matches Some(p) ==> p@ == parameter_of(*child, source.spec_bytes()).unwrap(),
{
    if !(child.named && child.kind == NodeKind::Parameter) {
        return None;
    }
    let name = match field_text(child, "name", source) {
        Some(n) => n,
        None => return None,
    };
    let t = field_position(child, "type");
    if t >= child.children.len() {
        return None;
    }
    assert(child.children@[t as int].fits(source.spec_bytes().len() as int));
    let ty = match type_ref(&child.children[t], source) {
        Some(ty) => ty,
        None => return None,
    };
    let has_default = field_position(child, "default") < child.children.len();
    Some(Parameter { name, ty, has_default })
}

fn parameters(node: &SyntaxNode, source: &str) -> (r: Vec<Parameter>)
    requires
        node.fits(source.spec_bytes().len() as int),
    ensures
        r@.map_values(|p: Parameter| p@) == parameters_of(*node, source.spec_bytes()),
{
    let ghost b = source.spec_bytes();
    let mut out: Vec<Parameter> = Vec::new();
    let k = field_position(node, "parameters");
    if k >= node.children.len() {
        assert(out@.map_values(|p: Parameter| p@) =~= Seq::<ParameterView>::empty());
        return out;
    }
    let list = &node.children[k];
    assert(list.fits(b.len() as int));
    let mut i: usize = 0;
    assert(out@.map_values(|p: Parameter| p@) =~= parameters_upto(list.children@, 0, b));
    while i < list.children.len()
        invariant
            list.fits(b.len() as int),
            b == source.spec_bytes(),
            0 <= i <= list.children@.len(),
            out@.map_values(|p: Parameter| p@) == parameters_upto(list.children@, i as int, b),
        decreases list.children@.len() - i,
    {
        assert(list.children@[i as int].fits(b.len() as int));
        let ghost before = out@;
        match parameter(&list.children[i], source) {
            Some(p) => {
                out.push(p);
                assert(out@.map_values(|p: Parameter| p@) =~= before.map_values(|p: Parameter| p@).push(
                    out@.last()@,
                ));
            },
            None => {},
        }
        i = i + 1;
    }
    out
}

fn whitespace_after_exec(s: &[u8], start: usize, end: usize) -> (r: usize)
    requires
        start <= end <= s@.len(),
    ensures
        r == whitespace_after(s@, start as int, end as int),
{
    if end - start >= 1 && (s[start] == 32 || (9 <= s[start] && s[start] <= 13)) {
        1
    } else if end - start >= 2 && s[start] == 0xC2 && (s[start + 1] == 0x85 || s[start + 1] == 0xA0) {
        2
    } else if end - start >= 3 && ((s[start] == 0xE1 && s[start + 1] == 0x9A && s[start + 2] == 0x80)
        || (s[start] == 0xE2 && s[start + 1] == 0x80 && ((0x80 <= s[start + 2] && s[start + 2]
        <= 0x8A) || s[start + 2] == 0xA8 || s[start + 2] == 0xA9 || s[start + 2] == 0xAF)) || (
    s[start] == 0xE2 && s[start + 1] == 0x81 && s[start + 2] == 0x9F) || (s[start] == 0xE3
        && s[start + 1] == 0x80 && s[start + 2] == 0x80)) {
        3
    } else {
        0
    }
}

fn trim_end_from(s: &[u8], start: usize, end: usize) -> (r: usize)
    requires
        start <= end <= s@.len(),
    ensures
        r == trim_end_whitespace(s@, start as int, end as int),
        start <= r <= end,
{
    let mut t = end;
    while whitespace_before_exec(s, start, t) > 0 && t - whitespace_before_exec(s, start, t) >= start
        invariant
            start <= t <= end <= s@.len(),
            trim_end_whitespace(s@, start as int, t as int) == trim_end_whitespace(
                s@,
                start as int,
                end as int,
            ),
        decreases t,
    {
        t = t - whitespace_before_exec(s, start, t);
    }
    t
}

fn trim_start_from(s: &[u8], start: usize, end: usize) -> (r: usize)
    requires
        start <= end <= s@.len(),
    ensures
        r == trim_start_whitespace(s@, start as int, end as int),
        start <= r <= end,
{
    let mut t = start;
    while whitespace_after_exec(s, t, end) > 0 && whitespace_after_exec(s, t, end) <= end - t
        invariant
            start <= t <= end <= s@.len(),
            trim_start_whitespace(s@, t as int, end as int) == trim_start_whitespace(
                s@,
                start as int,
                end as int,
            ),
        decreases end - t,
    {
        t = t + whitespace_after_exec(s, t, end);
    }
    t
}

/// The documentation comment before a declaration that starts at `start`.
pub fn preceding_documentation(source: &str, start: usize) -> (r: Option<String>)
    ensures
        r.is_some() == documentation_of(source.spec_bytes(), start as int).is_some(),
        r matches Some(d) ==> ({
            let (s, t) = documentation_of(source.spec_bytes(), start as int).unwrap();
            string_bytes(d) == source.spec_bytes().subrange(s, t)
        }),
{
    let b = source.as_bytes();
    let ghost bb = b@;
    if start > b.len() {
        return None;
    }
    match string_from_utf8(copy_range(b, 0, start)) {
        Some(_) => {},
        None => return None,
    }
    let e = trim_end_from(b, 0, start);
    if e == 0 || b[e - 1] != 125 {
        return None;
    }
    let mut o = e - 1;
    while o > 0 && b[o - 1] != 123
        invariant
            o <= e - 1,
            e <= bb.len(),
            bb == b@,
            last_brace(bb, o as int) == last_brace(bb, e - 1),
        decreases o,
    {
        o = o - 1;
    }
    if o == 0 {
        return None;
    }
    let open = o - 1;
    let s = trim_start_from(b, open + 1, e - 1);
    let t = trim_end_from(b, s, e - 1);
    if s >= t {
        return None;
    }
    proof {
        crate::text::lemma_str_valid(source);
        assert(bb[open as int] == 123);
        crate::text::lemma_valid_after_ascii(bb, open + 1);
        lemma_trim_start_valid(bb, open + 1, e - 1);
        lemma_trim_end_first(bb, s as int, e - 1);
        let tail = bb.subrange(s as int, bb.len() as int);
        assert(tail[t - s] == bb[t as int]);
        assert(!is_continuation_byte(bb[t as int]));
        is_char_boundary_iff_not_is_continuation_byte(tail, t - s);
        valid_utf8_split(tail, t - s);
        assert(tail.subrange(0, t - s) =~= bb.subrange(s as int, t as int));
    }
    Some(string_from_valid_range(b, s, t))
}

/// The declaration that a node makes, if it declares a name.
pub fn declaration(
    node: &SyntaxNode,
    source: &str,
    index: &LineIndex,
    script: &Option<String>,
    container: &Option<String>,
    scope: ByteRange,
) -> (r: Option<Declaration>)
    requires
        node.fits(source.spec_bytes().len() as int),
        index@ == line_starts_of(source.spec_bytes()),
    ensures
        r.is_some() == declaration_view(
            *node,
            source.spec_bytes(),
            index@,
            opt_bytes(*script),
            opt_bytes(*container),
            scope,
        ).is_some(),
        r matches Some(d) ==> d@ == declaration_view(
            *node,
            source.spec_bytes(),
            index@,
            opt_bytes(*script),
            opt_bytes(*container),
            scope,
        ).unwrap(),
{
    let ghost b = source.spec_bytes();
    let kind = match declaration_kind(node.kind) {
        Some(k) => k,
        None => return None,
    };
    let k = field_position(node, "name");
    if k >= node.children.len() {
        return None;
    }
    let name_node = &node.children[k];
    assert(name_node.fits(b.len() as int));
    let name = match text(name_node, source) {
        Some(n) => n,
        None => return None,
    };
    let t = field_position(node, "type");
    let from_type = if t < node.children.len() {
        assert(node.children@[t as int].fits(b.len() as int));
        type_ref(&node.children[t], source)
    } else {
        None
    };
    let ty = match from_type {
        Some(ty) => Some(ty),
        None => {
            let rt = field_position(node, "return_type");
            if rt < node.children.len() {
                assert(node.children@[rt as int].fits(b.len() as int));
                type_ref(&node.children[rt], source)
            } else {
                None
            }
        },
    };
    let parameters = parameters(node, source);
    let is_const = child_of_kind(node, NodeKind::ConstKeyword);
    let is_read_only = is_const || match field_text(node, "kind", source) {
        Some(kind_text) => str_equal_ignoring_case(kind_text.as_str(), "AutoReadOnly"),
        None => false,
    };
    let selection_range = range_of(name_node, source, index);
    let documentation = preceding_documentation(source, node.start);
    let is_global = child_of_kind(node, NodeKind::GlobalKeyword);
    let d = Declaration {
        name,
        kind,
        ty,
        parameters,
        owner_script: clone_text(script),
        container: clone_text(container),
        selection_range,
        scope,
        documentation,
        is_const,
        is_read_only,
        is_global,
    };
    proof {
        let v = declaration_view(*node, b, index@, opt_bytes(*script), opt_bytes(*container), scope);
        assert(d@.parameters == parameters_of(*node, b));
        assert(d@ == v.unwrap());
    }
    Some(d)
}

/// Appends the declarations of a subtree, in document order.
pub fn collect(
    node: &SyntaxNode,
    source: &str,
    index: &LineIndex,
    script: &Option<String>,
    container: &Option<String>,
    enclosing_scope: ByteRange,
    output: &mut Vec<Declaration>,
)
    requires
        node.fits(source.spec_bytes().len() as int),
        index@ == line_starts_of(source.spec_bytes()),
    ensures
        declaration_views(final(output)@) == declaration_views(old(output)@) + collected(
            *node,
            source.spec_bytes(),
            index@,
            opt_bytes(*script),
            opt_bytes(*container),
            enclosing_scope,
        ),
    decreases node,
{
    let ghost b = source.spec_bytes();
    let ghost start_views = declaration_views(output@);
    let scope = if node.kind == NodeKind::FunctionDefinition || node.kind == NodeKind::EventDefinition
        || node.kind == NodeKind::NativeFunctionDeclaration || node.kind
        == NodeKind::NativeEventDeclaration {
        ByteRange { start: node.start, end: node.end }
    } else {
        enclosing_scope
    };
    let next_container = field_text(node, "name", source);
    match declaration(node, source, index, script, container, scope) {
        Some(d) => {
            output.push(d);
        },
        None => {},
    }
    let ghost here = match declaration_view(*node, b, index@, opt_bytes(*script), opt_bytes(*container), scope) {
        Some(d) => seq![d],
        None => Seq::<DeclarationView>::empty(),
    };
    assert(declaration_views(output@) =~= start_views + here);
    let nested: Option<String> = if node.kind == NodeKind::FunctionDefinition || node.kind
        == NodeKind::EventDefinition || node.kind == NodeKind::NativeFunctionDeclaration || node.kind
        == NodeKind::NativeEventDeclaration || node.kind == NodeKind::StateDeclaration || node.kind
        == NodeKind::StructDeclaration || node.kind == NodeKind::PropertyDefinition {
        match next_container {
            Some(n) => Some(n),
            None => clone_text(container),
        }
    } else {
        clone_text(container)
    };
    let ghost nested_view = opt_bytes(nested);
    let mut i: usize = 0;
    while i < node.children.len()
        invariant
            node.fits(b.len() as int),
            b == source.spec_bytes(),
            index@ == line_starts_of(b),
            0 <= i <= node.children@.len(),
            declaration_views(output@) == start_views + here + collected_upto(
                node.children@,
                i as int,
                b,
                index@,
                opt_bytes(*script),
                nested_view,
                scope,
            ),
            nested_view == opt_bytes(nested),
        decreases node.children@.len() - i,
    {
        let child = &node.children[i];
        assert(child.fits(b.len() as int));
        if child.named {
            let ghost before = declaration_views(output@);
            collect(child, source, index, script, &nested, scope, output);
            assert(declaration_views(output@) =~= start_views + here + collected_upto(
                node.children@,
                i + 1,
                b,
                index@,
                opt_bytes(*script),
                nested_view,
                scope,
            ));
        }
        i = i + 1;
    }
}

} // verus!
