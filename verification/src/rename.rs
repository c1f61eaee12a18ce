//! Renaming a declaration: who may be renamed, to what, which edits a
//! rename makes, and the check that every edited reference still resolves
//! to the renamed declaration afterwards.
use vstd::prelude::*;
use vstd::string::StringSliceAdditionalSpecFns;
use crate::config::{WorkspaceConfig, separates, under_some};
use crate::line_index::{Position, TextRange};
use crate::navigation::visible_option;
use crate::paths::{PathStyle, file_uri_text};
use crate::rename_rules::last_colon;
use crate::semantic::{Declaration, DeclarationKind};
use crate::text::{append_text, owned, same_ignoring_case, string_bytes};
use crate::workspace::{DeclRef, WorkspaceIndex, opt_named};
use crate::issue_sort::document_with_uri;
use crate::navigation::{at_spec, outcome_option};
use crate::queries::{Location, LocationView, canonical_spec, declaration_location_spec, location_views, sorted_references};
use crate::renamed::{RenamedResolver, r_occurrence};
use crate::rename_rules::name_problem;
use crate::semantic::SemanticOccurrence;

verus! {

/// A document under one of the project's source roots.
pub open spec fn project_document_spec(ws: WorkspaceIndex, config: WorkspaceConfig, style: PathStyle, i: int) -> bool {
    match ws.documents@[i].path {
        Some(p) => under_some(string_bytes(p), config.source_roots@, style),
        None => false,
    }
}

/// Two optional names agree without case, or both are absent.
pub open spec fn opt_same(a: Option<String>, b: Option<String>) -> bool {
    match (a, b) {
        (Some(x), Some(y)) => same_ignoring_case(string_bytes(x), string_bytes(y)),
        (None, None) => true,
        _ => false,
    }
}

/// A declaration of the target's document, other than the target, that
/// would share the new name with it in the same owner and container.
pub open spec fn collides(c: Declaration, target: Declaration, nn: Seq<u8>) -> bool {
    &&& same_ignoring_case(string_bytes(c.name), nn)
    &&& opt_same(c.owner_script, target.owner_script)
    &&& opt_same(c.container, target.container)
}

pub open spec fn script_exists_message(nn: Seq<u8>) -> Seq<u8> {
    "A script named `".spec_bytes() + nn + "` is already indexed.".spec_bytes()
}

pub open spec fn visible_message(nn: Seq<u8>) -> Seq<u8> {
    "The name `".spec_bytes() + nn + "` is already visible in the target declaration's scope.".spec_bytes()
}

pub open spec fn exists_message(nn: Seq<u8>) -> Seq<u8> {
    "The name `".spec_bytes() + nn + "` already exists in the target declaration's scope.".spec_bytes()
}

/// Why the new name would collide, if it would: a script of that name is
/// indexed, the name is visible where the target is declared, or another
/// declaration of the target's owner and container has it. Renaming to the
/// same name in another case never collides.
pub open spec fn collision_spec(ws: WorkspaceIndex, t: DeclRef, nn: Seq<u8>) -> Option<Seq<u8>> {
    let decl = ws.decl(t);
    let ds = ws.declarations(t.document as int);
    if same_ignoring_case(string_bytes(decl.name), nn) {
        None
    } else if decl.kind == DeclarationKind::Script {
        if exists|i: int| 0 <= i < ws.documents@.len() && opt_named(#[trigger] ws.documents@[i].semantic.script_name, nn) {
            Some(script_exists_message(nn))
        } else {
            None
        }
    } else if visible_option(ws, t.document as int, nn, decl.scope.start) is Some {
        Some(visible_message(nn))
    } else if exists|j: int| 0 <= j < ds.len() && j != t.declaration && collides(#[trigger] ds[j], decl, nn) {
        Some(exists_message(nn))
    } else {
        None
    }
}

/// Where the file name of a path starts: after its last separator.
pub open spec fn file_name_start(path: Seq<u8>, style: PathStyle, i: int) -> int
    decreases i,
{
    if i <= 0 || i > path.len() {
        0
    } else if separates(path[i - 1], style) {
        i
    } else {
        file_name_start(path, style, i - 1)
    }
}

/// The last `.` of a file name after its first byte, or 0.
pub open spec fn last_dot(name: Seq<u8>, i: int) -> int
    decreases i,
{
    if i <= 1 || i > name.len() {
        0
    } else if name[i - 1] == 46 {
        i - 1
    } else {
        last_dot(name, i - 1)
    }
}

/// The file name of a path without its extension (`Path::file_stem`): none
/// when the path ends at a separator.
pub open spec fn file_stem_spec(path: Seq<u8>, style: PathStyle) -> Option<Seq<u8>> {
    let s = file_name_start(path, style, path.len() as int);
    let name = path.subrange(s, path.len() as int);
    if name.len() == 0 {
        None
    } else if last_dot(name, name.len() as int) > 0 {
        Some(name.subrange(0, last_dot(name, name.len() as int)))
    } else {
        Some(name)
    }
}

/// The namespace and terminal name of a script name, split at its last `:`.
pub open spec fn namespace_of(b: Seq<u8>) -> Seq<u8> {
    let c = last_colon(b, b.len() as int);
    if c >= 0 {
        b.subrange(0, c)
    } else {
        Seq::empty()
    }
}

pub open spec fn leaf_of(b: Seq<u8>) -> Seq<u8> {
    let c = last_colon(b, b.len() as int);
    if c >= 0 {
        b.subrange(c + 1, b.len() as int)
    } else {
        b
    }
}

/// The path of the renamed script file: the same directory, the new
/// terminal name and `.psc`.
pub open spec fn renamed_path_spec(path: Seq<u8>, style: PathStyle, leaf: Seq<u8>) -> Seq<u8> {
    path.subrange(0, file_name_start(path, style, path.len() as int)) + leaf + ".psc".spec_bytes()
}

pub open spec fn stem_message(name: Seq<u8>, path: Seq<u8>) -> Seq<u8> {
    "Script `".spec_bytes() + name + "` is stored in `".spec_bytes() + path
        + "`; the filename must match the script name before it can be renamed.".spec_bytes()
}

pub open spec fn destination_message(path: Seq<u8>) -> Seq<u8> {
    "Cannot rename the script because `".spec_bytes() + path + "` already exists.".spec_bytes()
}

/// The file operation of a script rename: an error, no operation when the
/// terminal name is unchanged, or the old and new `file:` URIs. The
/// namespace must stay, the file name must be the old terminal name, and
/// the destination must be free unless only the case changes.
/// `destination_exists` and `current` are what the file system says of the
/// new path and of the script's path.
pub open spec fn file_rename_spec(
    ws: WorkspaceIndex,
    t: DeclRef,
    nn: Seq<u8>,
    style: PathStyle,
    destination_exists: bool,
    current: Seq<u8>,
) -> Result<Option<(Seq<u8>, Seq<u8>)>, Seq<u8>> {
    let name = string_bytes(ws.decl(t).name);
    if !same_ignoring_case(namespace_of(name), namespace_of(nn)) {
        Err("Renaming a script across namespaces is not supported.".spec_bytes())
    } else {
        match ws.documents@[t.document as int].path {
            None => Err("The script does not have a file path that can be renamed.".spec_bytes()),
            Some(p) => {
                let path = string_bytes(p);
                match file_stem_spec(path, style) {
                    None => Err("The script filename is not valid Unicode.".spec_bytes()),
                    Some(stem) => if !same_ignoring_case(stem, leaf_of(name)) {
                        Err(stem_message(name, path))
                    } else if leaf_of(name) == leaf_of(nn) {
                        Ok(None)
                    } else {
                        let new_path = renamed_path_spec(path, style, leaf_of(nn));
                        if destination_exists && !same_ignoring_case(leaf_of(name), leaf_of(nn)) {
                            Err(destination_message(new_path))
                        } else {
                            Ok(Some((file_uri_text(current), file_uri_text(new_path))))
                        }
                    },
                }
            },
        }
    }
}

/// The text `a`, then `b`, then `c`.
fn message(a: &str, b: &str, c: &str) -> (r: String)
    ensures
        string_bytes(r) == a.spec_bytes() + b.spec_bytes() + c.spec_bytes(),
{
    let mut m = owned(a);
    append_text(&mut m, b);
    append_text(&mut m, c);
    m
}

fn file_name_start_exec(path: &[u8], style: PathStyle) -> (r: usize)
    ensures
        r as int == file_name_start(path@, style, path@.len() as int),
        r <= path@.len(),
        r > 0 ==> separates(path@[r - 1], style),
{
    let mut i = path.len();
    while i > 0 && !(path[i - 1] == 47 || (style == PathStyle::Windows && path[i - 1] == 92))
        invariant
            0 <= i <= path@.len(),
            file_name_start(path@, style, i as int) == file_name_start(path@, style, path@.len() as int),
        decreases i,
    {
        i = i - 1;
    }
    i
}

impl WorkspaceIndex {
    /// Whether the document at `i` lies under a source root (`is_project_document`).
    pub fn is_project_document(&self, i: usize, config: &WorkspaceConfig, style: PathStyle) -> (r: bool)
        requires
            i < self.documents@.len(),
        ensures
            r == project_document_spec(*self, *config, style, i as int),
    {
        match &self.documents[i].path {
            Some(p) => crate::config::under_any(p.as_str().as_bytes(), &config.source_roots, style),
            None => false,
        }
    }

    /// Why renaming `t` to `new_name` would collide, if it would (`validate_collision`).
    pub fn validate_collision(&self, t: DeclRef, new_name: &str) -> (r: Result<(), String>)
        requires
            self.valid_ref(t),
        ensures
            match collision_spec(*self, t, new_name.spec_bytes()) {
                None => r is Ok,
                Some(m) => r matches Err(e) && string_bytes(e) == m,
            },
    {
        let ghost nn = new_name.spec_bytes();
        let decl = &self.documents[t.document].semantic.declarations[t.declaration];
        if crate::text::str_equal_ignoring_case(decl.name.as_str(), new_name) {
            return Ok(());
        }
        if decl.kind == DeclarationKind::Script {
            let mut i: usize = 0;
            while i < self.documents.len()
                invariant
                    0 <= i <= self.documents@.len(),
                    nn == new_name.spec_bytes(),
                    self.valid_ref(t),
                    *decl == self.decl(t),
                    !same_ignoring_case(string_bytes(decl.name), nn),
                    decl.kind == DeclarationKind::Script,
                    forall|k: int| 0 <= k < i ==> !opt_named(#[trigger] self.documents@[k].semantic.script_name, nn),
                decreases self.documents@.len() - i,
            {
                let named = match &self.documents[i].semantic.script_name {
                    Some(n) => crate::text::str_equal_ignoring_case(n.as_str(), new_name),
                    None => false,
                };
                if named {
                    assert(opt_named(self.documents@[i as int].semantic.script_name, nn));
                    return Err(message("A script named `", new_name, "` is already indexed."));
                }
                i = i + 1;
            }
            return Ok(());
        }
        if self.resolve_visible_name(t.document, new_name.as_bytes(), decl.scope.start).is_some() {
            return Err(message("The name `", new_name, "` is already visible in the target declaration's scope."));
        }
        let ds = &self.documents[t.document].semantic.declarations;
        let mut j: usize = 0;
        while j < ds.len()
            invariant
                self.valid_ref(t),
                ds@ == self.declarations(t.document as int),
                *decl == self.decl(t),
                nn == new_name.spec_bytes(),
                !same_ignoring_case(string_bytes(decl.name), nn),
                decl.kind != DeclarationKind::Script,
                visible_option(*self, t.document as int, nn, decl.scope.start) is None,
                0 <= j <= ds@.len(),
                forall|k: int| 0 <= k < j && k != t.declaration ==> !collides(#[trigger] ds@[k], *decl, nn),
            decreases ds@.len() - j,
        {
            if j != t.declaration {
                let c = &ds[j];
                let collision = crate::text::str_equal_ignoring_case(c.name.as_str(), new_name)
                    && crate::rename_rules::option_eq_ignore_ascii_case(
                    match &c.owner_script {
                        Some(o) => Some(o.as_str()),
                        None => None,
                    },
                    match &decl.owner_script {
                        Some(o) => Some(o.as_str()),
                        None => None,
                    },
                ) && crate::rename_rules::option_eq_ignore_ascii_case(
                    match &c.container {
                        Some(o) => Some(o.as_str()),
                        None => None,
                    },
                    match &decl.container {
                        Some(o) => Some(o.as_str()),
                        None => None,
                    },
                );
                if collision {
                    assert(collides(ds@[j as int], *decl, nn));
                    return Err(message("The name `", new_name, "` already exists in the target declaration's scope."));
                }
            }
            j = j + 1;
        }
        Ok(())
    }

    /// The path that a renamed script file gets: the same directory, the new
    /// terminal name and `.psc`.
    pub fn renamed_script_path(path: &str, style: PathStyle, new_name: &str) -> (r: String)
        ensures
            string_bytes(r) == renamed_path_spec(path.spec_bytes(), style, leaf_of(new_name.spec_bytes())),
    {
        let b = path.as_bytes();
        let start = file_name_start_exec(b, style);
        proof {
            crate::text::lemma_str_valid(path);
            if start > 0 {
                crate::text::lemma_valid_after_ascii(b@, start as int);
            } else {
                assert(b@.subrange(0, 0) =~= Seq::<u8>::empty());
                assert(vstd::utf8::valid_utf8(Seq::<u8>::empty()));
            }
        }
        let mut out = crate::text::string_from_valid_range(b, 0, start);
        let (_, leaf) = crate::rename_rules::split_script_name(new_name);
        append_text(&mut out, leaf.as_str());
        append_text(&mut out, ".psc");
        out
    }
}

/// Renaming a file: its old and new `file:` URIs.
#[derive(Debug)]
pub struct FileRename {
    pub old_uri: String,
    pub new_uri: String,
}

fn last_dot_exec(name: &Vec<u8>) -> (r: usize)
    ensures
        r as int == last_dot(name@, name@.len() as int),
        r < name@.len() || r == 0,
{
    let mut i = name.len();
    while i > 1 && name[i - 1] != 46
        invariant
            0 <= i <= name@.len(),
            last_dot(name@, i as int) == last_dot(name@, name@.len() as int),
        decreases i,
    {
        i = i - 1;
    }
    if i > 1 {
        i - 1
    } else {
        0
    }
}

impl WorkspaceIndex {
    /// The file operation that renaming the script `t` to `new_name` needs
    /// (`script_file_rename`); `destination_exists` and `current_path` are
    /// what the file system says of the new path and of the script's path.
    pub fn script_file_rename(
        &self,
        t: DeclRef,
        new_name: &str,
        style: PathStyle,
        destination_exists: bool,
        current_path: &str,
    ) -> (r: Result<Option<FileRename>, String>)
        requires
            self.valid_ref(t),
        ensures
            match file_rename_spec(*self, t, new_name.spec_bytes(), style, destination_exists, current_path.spec_bytes()) {
                Err(m) => r matches Err(e) && string_bytes(e) == m,
                Ok(None) => r matches Ok(None),
                Ok(Some((a, b))) => r matches Ok(Some(f)) && string_bytes(f.old_uri) == a && string_bytes(f.new_uri) == b,
            },
    {
        let decl = &self.documents[t.document].semantic.declarations[t.declaration];
        let (old_namespace, old_leaf) = crate::rename_rules::split_script_name(decl.name.as_str());
        let (new_namespace, new_leaf) = crate::rename_rules::split_script_name(new_name);
        if !crate::text::str_equal_ignoring_case(old_namespace.as_str(), new_namespace.as_str()) {
            return Err(owned("Renaming a script across namespaces is not supported."));
        }
        let path = match &self.documents[t.document].path {
            Some(p) => p,
            None => return Err(owned("The script does not have a file path that can be renamed.")),
        };
        let pb = path.as_str().as_bytes();
        let start = file_name_start_exec(pb, style);
        let file_name = crate::text::copy_range(pb, start, pb.len());
        if file_name.len() == 0 {
            return Err(owned("The script filename is not valid Unicode."));
        }
        let dot = last_dot_exec(&file_name);
        let stem = if dot > 0 {
            crate::text::copy_range(file_name.as_slice(), 0, dot)
        } else {
            file_name
        };
        proof {
            if dot == 0 {
                assert(stem@ == file_name@);
            }
        }
        if !crate::text::equal_ignoring_case(stem.as_slice(), old_leaf.as_str().as_bytes()) {
            let mut m = owned("Script `");
            append_text(&mut m, decl.name.as_str());
            append_text(&mut m, "` is stored in `");
            append_text(&mut m, path.as_str());
            append_text(&mut m, "`; the filename must match the script name before it can be renamed.");
            return Err(m);
        }
        if crate::text::bytes_equal(old_leaf.as_str().as_bytes(), new_leaf.as_str().as_bytes()) {
            return Ok(None);
        }
        let new_path = WorkspaceIndex::renamed_script_path(path.as_str(), style, new_name);
        let case_only = crate::text::equal_ignoring_case(old_leaf.as_str().as_bytes(), new_leaf.as_str().as_bytes());
        if destination_exists && !case_only {
            return Err(message("Cannot rename the script because `", new_path.as_str(), "` already exists."));
        }
        Ok(
            Some(
                FileRename {
                    old_uri: crate::paths::path_to_file_uri_lexical(current_path),
                    new_uri: crate::paths::path_to_file_uri_lexical(new_path.as_str()),
                },
            ),
        )
    }
}

/// The document of a URI is indexed and lies under a source root.
pub open spec fn project_uri_spec(ws: WorkspaceIndex, config: WorkspaceConfig, style: PathStyle, uri: Seq<u8>) -> bool {
    let c = document_with_uri(ws, uri, 0);
    c < ws.documents@.len() && project_document_spec(ws, config, style, c)
}

/// The locations among the first `k` that lie in project documents.
pub open spec fn project_locations(
    ws: WorkspaceIndex,
    config: WorkspaceConfig,
    style: PathStyle,
    locs: Seq<LocationView>,
    k: int,
) -> Seq<LocationView>
    decreases k,
{
    if k <= 0 || k > locs.len() {
        Seq::empty()
    } else {
        project_locations(ws, config, style, locs, k - 1) + if project_uri_spec(ws, config, style, locs[k - 1].uri) {
            seq![locs[k - 1]]
        } else {
            Seq::empty()
        }
    }
}

/// The first occurrence from `i` on whose name spans `r`; the count when none does.
pub open spec fn occurrence_with_range(os: Seq<SemanticOccurrence>, r: TextRange, i: int) -> int
    decreases os.len() - i,
{
    if i < 0 || i >= os.len() {
        os.len() as int
    } else if os[i].selection_range == r {
        i
    } else {
        occurrence_with_range(os, r, i + 1)
    }
}

pub open spec fn source_gone_message(uri: Seq<u8>) -> Seq<u8> {
    "The rename source `".spec_bytes() + uri + "` is no longer indexed.".spec_bytes()
}

pub open spec fn reference_gone_message(uri: Seq<u8>) -> Seq<u8> {
    "The edited reference in `".spec_bytes() + uri + "` is no longer indexed.".spec_bytes()
}

pub open spec fn unresolved_message(nn: Seq<u8>, uri: Seq<u8>) -> Seq<u8> {
    "Renaming to `".spec_bytes() + nn + "` would make a reference in `".spec_bytes() + uri
        + "` ambiguous or unresolved.".spec_bytes()
}

pub open spec fn rebound_message(nn: Seq<u8>, uri: Seq<u8>) -> Seq<u8> {
    "Renaming to `".spec_bytes() + nn + "` would change what a reference in `".spec_bytes() + uri
        + "` resolves to.".spec_bytes()
}

/// What is wrong with an edited reference after the rename, if anything:
/// its document or occurrence is no longer indexed, it no longer resolves,
/// or it resolves to another declaration than the target.
#[verifier::opaque]
pub open spec fn edit_problem(ws: WorkspaceIndex, t: DeclRef, nn: Seq<u8>, l: LocationView) -> Option<Seq<u8>> {
    let c = document_with_uri(ws, l.uri, 0);
    if c >= ws.documents@.len() {
        Some(source_gone_message(l.uri))
    } else {
        let os = ws.documents@[c].semantic.occurrences@;
        let k = occurrence_with_range(os, l.range, 0);
        if k >= os.len() {
            Some(reference_gone_message(l.uri))
        } else {
            match r_occurrence(ws, t, nn, c, os[k]) {
                None => Some(unresolved_message(nn, l.uri)),
                Some(r) => if canonical_spec(ws, r) != t {
                    Some(rebound_message(nn, l.uri))
                } else {
                    None
                },
            }
        }
    }
}

/// Checking the first `k` edits in order: the first problem, or whether the
/// target's own location was among them.
pub open spec fn validation_upto(ws: WorkspaceIndex, t: DeclRef, nn: Seq<u8>, locs: Seq<LocationView>, k: int) -> Result<
    bool,
    Seq<u8>,
>
    decreases k,
{
    if k <= 0 || k > locs.len() {
        Ok(false)
    } else {
        match validation_upto(ws, t, nn, locs, k - 1) {
            Err(m) => Err(m),
            Ok(found) => if locs[k - 1] == declaration_location_spec(ws, t) {
                Ok(true)
            } else {
                match edit_problem(ws, t, nn, locs[k - 1]) {
                    Some(m) => Err(m),
                    None => Ok(found),
                }
            },
        }
    }
}

proof fn lemma_validation_error_stays(ws: WorkspaceIndex, t: DeclRef, nn: Seq<u8>, locs: Seq<LocationView>, k: int, n: int)
    requires
        0 < k <= n <= locs.len(),
        validation_upto(ws, t, nn, locs, k) is Err,
    ensures
        validation_upto(ws, t, nn, locs, n) == validation_upto(ws, t, nn, locs, k),
    decreases n - k,
{
    if n > k {
        lemma_validation_error_stays(ws, t, nn, locs, k, n - 1);
    }
}

/// Why a set of edits would break the workspace, if it would: an edited
/// reference that no longer resolves to the target, or a target that the
/// edits leave out.
pub open spec fn validation_spec(ws: WorkspaceIndex, t: DeclRef, nn: Seq<u8>, locs: Seq<LocationView>) -> Option<
    Seq<u8>,
> {
    match validation_upto(ws, t, nn, locs, locs.len() as int) {
        Err(m) => Some(m),
        Ok(true) => None,
        Ok(false) => Some("The rename target was not included in the edit set.".spec_bytes()),
    }
}

/// The edits of one document: its URI, its version, and the ranges that
/// take the new name.
pub struct DocumentEditView {
    pub uri: Seq<u8>,
    pub version: Option<i32>,
    pub ranges: Seq<TextRange>,
}

/// The locations grouped by URI, in order, consecutive locations of one
/// URI in one group.
pub open spec fn grouped(locs: Seq<LocationView>, k: int) -> Seq<DocumentEditView>
    decreases k,
{
    if k <= 0 || k > locs.len() {
        Seq::empty()
    } else {
        let g = grouped(locs, k - 1);
        let l = locs[k - 1];
        if g.len() > 0 && g.last().uri == l.uri {
            g.update(
                g.len() - 1,
                DocumentEditView { uri: l.uri, version: None, ranges: g.last().ranges.push(l.range) },
            )
        } else {
            g.push(DocumentEditView { uri: l.uri, version: None, ranges: seq![l.range] })
        }
    }
}

/// The version the client last gave for a URI: the first pair of it.
pub open spec fn version_of(versions: Seq<(String, i32)>, uri: Seq<u8>, i: int) -> Option<i32>
    decreases versions.len() - i,
{
    if i < 0 || i >= versions.len() {
        None
    } else if string_bytes(versions[i].0) == uri {
        Some(versions[i].1)
    } else {
        version_of(versions, uri, i + 1)
    }
}

/// The groups with their versions.
pub open spec fn versioned(groups: Seq<DocumentEditView>, versions: Seq<(String, i32)>) -> Seq<DocumentEditView> {
    groups.map_values(
        |g: DocumentEditView| DocumentEditView { uri: g.uri, version: version_of(versions, g.uri, 0), ranges: g.ranges },
    )
}

/// A rename's edits: per document, in order of URI, versioned when the
/// client takes document changes or a file is renamed, then the file rename.
pub struct RenameEditView {
    pub versioned: bool,
    pub documents: Seq<DocumentEditView>,
    pub file_rename: Option<(Seq<u8>, Seq<u8>)>,
}

/// What the file system says for a rename: its path conventions, whether
/// an entry exists at the renamed script's path, and the script's path as
/// the file system resolves it.
pub struct FileSystemView {
    pub style: PathStyle,
    pub destination_exists: bool,
    pub current_path: String,
}

/// The outcome of renaming what a position denotes: its canonical
/// declaration must resolve, lie in a project document, take a valid and
/// free name, and (for a script) a feasible file rename; the references in
/// project documents take the new name, and each must still resolve to the
/// target afterwards. No edit at all gives no result.
pub open spec fn rename_spec(
    ws: WorkspaceIndex,
    config: WorkspaceConfig,
    cur: int,
    p: Position,
    nn: Seq<u8>,
    document_changes: bool,
    file_rename: bool,
    style: PathStyle,
    destination_exists: bool,
    current: Seq<u8>,
    versions: Seq<(String, i32)>,
) -> Result<Option<RenameEditView>, Seq<u8>> {
    match outcome_option(at_spec(ws, cur, p)) {
        None => Err("The rename target does not resolve uniquely.".spec_bytes()),
        Some(d) => {
            let t = canonical_spec(ws, d);
            let script = ws.decl(t).kind == DeclarationKind::Script;
            if !project_document_spec(ws, config, style, t.document as int) {
                Err("Only declarations in project source roots can be renamed.".spec_bytes())
            } else if name_problem(nn, script) is Some {
                Err(name_problem(nn, script).unwrap())
            } else if collision_spec(ws, t, nn) is Some {
                Err(collision_spec(ws, t, nn).unwrap())
            } else if script && !file_rename {
                Err(
                    "The editor does not support the file operation required to rename a Papyrus script.".spec_bytes(),
                )
            } else {
                let fr = if script {
                    file_rename_spec(ws, t, nn, style, destination_exists, current)
                } else {
                    Ok(None)
                };
                match fr {
                    Err(m) => Err(m),
                    Ok(f) => {
                        let all = sorted_references(ws, cur, p, true);
                        let locs = project_locations(ws, config, style, all, all.len() as int);
                        if locs.len() == 0 {
                            Ok(None)
                        } else {
                            match validation_spec(ws, t, nn, locs) {
                                Some(m) => Err(m),
                                None => {
                                    let groups = grouped(locs, locs.len() as int);
                                    let v = f is Some || document_changes;
                                    Ok(
                                        Some(
                                            RenameEditView {
                                                versioned: v,
                                                documents: if v {
                                                    versioned(groups, versions)
                                                } else {
                                                    groups
                                                },
                                                file_rename: f,
                                            },
                                        ),
                                    )
                                },
                            }
                        }
                    },
                }
            }
        },
    }
}

/// One edit: a range that takes a new text.
#[derive(Debug)]
pub struct TextEdit {
    pub range: TextRange,
    pub new_text: String,
}

/// The edits of one document, with the client's version of it.
#[derive(Debug)]
pub struct DocumentEdit {
    pub uri: String,
    pub version: Option<i32>,
    pub edits: Vec<TextEdit>,
}

/// The edits of a rename, and the file it renames.
#[derive(Debug)]
pub struct RenameEdit {
    pub versioned: bool,
    pub documents: Vec<DocumentEdit>,
    pub file_rename: Option<FileRename>,
}

impl View for DocumentEdit {
    type V = DocumentEditView;

    open spec fn view(&self) -> DocumentEditView {
        DocumentEditView {
            uri: string_bytes(self.uri),
            version: self.version,
            ranges: self.edits@.map_values(|e: TextEdit| e.range),
        }
    }
}

impl View for RenameEdit {
    type V = RenameEditView;

    open spec fn view(&self) -> RenameEditView {
        RenameEditView {
            versioned: self.versioned,
            documents: self.documents@.map_values(|d: DocumentEdit| d@),
            file_rename: match self.file_rename {
                Some(f) => Some((string_bytes(f.old_uri), string_bytes(f.new_uri))),
                None => None,
            },
        }
    }
}

/// Every edit writes the new name.
pub open spec fn writes_name(documents: Seq<DocumentEdit>, nn: Seq<u8>) -> bool {
    forall|d: int, k: int|
        0 <= d < documents.len() && 0 <= k < documents[d].edits@.len() ==> string_bytes(
            #[trigger] documents[d].edits@[k].new_text,
        ) == nn
}

pub open spec fn document_views(s: Seq<DocumentEdit>) -> Seq<DocumentEditView> {
    s.map_values(|d: DocumentEdit| d@)
}

fn copy_location(l: &Location) -> (r: Location)
    ensures
        r@ == l@,
{
    Location { uri: l.uri.clone(), range: l.range }
}

impl WorkspaceIndex {
    /// The locations that lie in project documents.
    pub fn project_locations(&self, locs: &Vec<Location>, config: &WorkspaceConfig, style: PathStyle) -> (r: Vec<Location>)
        ensures
            location_views(r@) == project_locations(*self, *config, style, location_views(locs@), locs@.len() as int),
    {
        let mut out: Vec<Location> = Vec::new();
        let mut i: usize = 0;
        assert(location_views(out@) =~= Seq::<LocationView>::empty());
        while i < locs.len()
            invariant
                0 <= i <= locs@.len(),
                location_views(out@) == project_locations(*self, *config, style, location_views(locs@), i as int),
            decreases locs@.len() - i,
        {
            let keep = match self.document_index(locs[i].uri.as_str()) {
                Some(c) => self.is_project_document(c, config, style),
                None => false,
            };
            assert(location_views(locs@)[i as int] == locs@[i as int]@);
            if keep {
                out.push(copy_location(&locs[i]));
            }
            assert(location_views(out@) =~= project_locations(*self, *config, style, location_views(locs@), i + 1));
            i = i + 1;
        }
        out
    }

    fn edit_problem_exec(&self, t: DeclRef, new_name: &str, l: &Location) -> (r: Option<String>)
        requires
            self.valid_ref(t),
        ensures
            match edit_problem(*self, t, new_name.spec_bytes(), l@) {
                None => r is None,
                Some(m) => r matches Some(e) && string_bytes(e) == m,
            },
    {
        reveal(edit_problem);
        let c = match self.document_index(l.uri.as_str()) {
            Some(c) => c,
            None => return Some(message("The rename source `", l.uri.as_str(), "` is no longer indexed.")),
        };
        let os = &self.documents[c].semantic.occurrences;
        let mut k: usize = 0;
        while k < os.len() && os[k].selection_range != l.range
            invariant
                0 <= k <= os@.len(),
                occurrence_with_range(os@, l.range, k as int) == occurrence_with_range(os@, l.range, 0),
            decreases os@.len() - k,
        {
            k = k + 1;
        }
        if k >= os.len() {
            return Some(message("The edited reference in `", l.uri.as_str(), "` is no longer indexed."));
        }
        let resolver = RenamedResolver { workspace: self, target: t, new_name };
        match resolver.resolve_occurrence(c, &os[k]) {
            None => {
                let mut m = owned("Renaming to `");
                append_text(&mut m, new_name);
                append_text(&mut m, "` would make a reference in `");
                append_text(&mut m, l.uri.as_str());
                append_text(&mut m, "` ambiguous or unresolved.");
                Some(m)
            },
            Some(r) => if self.canonical_declaration(r) != t {
                let mut m = owned("Renaming to `");
                append_text(&mut m, new_name);
                append_text(&mut m, "` would change what a reference in `");
                append_text(&mut m, l.uri.as_str());
                append_text(&mut m, "` resolves to.");
                Some(m)
            } else {
                None
            },
        }
    }

    /// Checks that every edited reference still resolves to the target
    /// once it takes the new name, and that the target is edited
    /// (`validate_renamed_references`).
    pub fn validate_renamed_references(&self, t: DeclRef, new_name: &str, locs: &Vec<Location>) -> (r: Result<(), String>)
        requires
            self.valid_ref(t),
        ensures
            match validation_spec(*self, t, new_name.spec_bytes(), location_views(locs@)) {
                None => r is Ok,
                Some(m) => r matches Err(e) && string_bytes(e) == m,
            },
    {
        let ghost nn = new_name.spec_bytes();
        let ghost lv = location_views(locs@);
        let target = self.declaration_location(t);
        let mut found = false;
        let mut i: usize = 0;
        while i < locs.len()
            invariant
                self.valid_ref(t),
                nn == new_name.spec_bytes(),
                lv == location_views(locs@),
                target@ == declaration_location_spec(*self, t),
                0 <= i <= locs@.len(),
                validation_upto(*self, t, nn, lv, i as int) == Ok::<bool, Seq<u8>>(found),
            decreases locs@.len() - i,
        {
            let l = &locs[i];
            assert(lv[i as int] == l@);
            if crate::text::bytes_equal(l.uri.as_str().as_bytes(), target.uri.as_str().as_bytes()) && l.range
                == target.range {
                assert(l@ == target@);
                found = true;
            } else {
                assert(l@ != target@);
                match self.edit_problem_exec(t, new_name, l) {
                    Some(m) => {
                        proof {
                            lemma_validation_error_stays(*self, t, nn, lv, i + 1, lv.len() as int);
                        }
                        return Err(m);
                    },
                    None => {},
                }
            }
            i = i + 1;
        }
        if found {
            Ok(())
        } else {
            Err(owned("The rename target was not included in the edit set."))
        }
    }
}

/// Groups sorted locations into the edits of their documents.
pub fn group_edits(locs: &Vec<Location>, new_name: &str) -> (r: Vec<DocumentEdit>)
    ensures
        document_views(r@) == grouped(location_views(locs@), locs@.len() as int),
        writes_name(r@, new_name.spec_bytes()),
{
    let mut out: Vec<DocumentEdit> = Vec::new();
    let mut i: usize = 0;
    assert(document_views(out@) =~= grouped(location_views(locs@), 0));
    while i < locs.len()
        invariant
            0 <= i <= locs@.len(),
            document_views(out@) == grouped(location_views(locs@), i as int),
            writes_name(out@, new_name.spec_bytes()),
        decreases locs@.len() - i,
    {
        let l = &locs[i];
        let ghost g = grouped(location_views(locs@), i as int);
        assert(location_views(locs@)[i as int] == l@);
        let n = out.len();
        let same = n > 0 && crate::text::bytes_equal(out[n - 1].uri.as_str().as_bytes(), l.uri.as_str().as_bytes());
        let edit = TextEdit { range: l.range, new_text: owned(new_name) };
        if same {
            assert(g.last() == out@[n - 1]@);
            let mut last = out.pop().unwrap();
            let ghost before = last.edits@;
            last.edits.push(edit);
            assert(last@.ranges =~= g.last().ranges.push(l.range));
            let ghost prefix = out@;
            out.push(last);
            proof {
                assert(document_views(out@) =~= g.update(g.len() - 1, DocumentEditView { uri: l@.uri, version: None, ranges: g.last().ranges.push(l.range) }));
                assert forall|d: int, k: int|
                    0 <= d < out@.len() && 0 <= k < out@[d].edits@.len() implies string_bytes(
                        #[trigger] out@[d].edits@[k].new_text,
                    ) == new_name.spec_bytes() by {
                    if d < n - 1 {
                        assert(out@[d] == prefix[d]);
                    } else {
                        if k < before.len() {
                            assert(out@[d].edits@[k] == before[k]);
                        }
                    }
                }
            }
        } else {
            let ghost prefix = out@;
            let mut edits: Vec<TextEdit> = Vec::new();
            edits.push(edit);
            assert(edits@.map_values(|e: TextEdit| e.range) =~= seq![l.range]);
            out.push(DocumentEdit { uri: l.uri.clone(), version: None, edits });
            proof {
                assert(document_views(out@) =~= g.push(DocumentEditView { uri: l@.uri, version: None, ranges: seq![l.range] }));
                assert forall|d: int, k: int|
                    0 <= d < out@.len() && 0 <= k < out@[d].edits@.len() implies string_bytes(
                        #[trigger] out@[d].edits@[k].new_text,
                    ) == new_name.spec_bytes() by {
                    if d < n {
                        assert(out@[d] == prefix[d]);
                    }
                }
            }
        }
        i = i + 1;
    }
    out
}

fn version_lookup(versions: &Vec<(String, i32)>, uri: &String) -> (r: Option<i32>)
    ensures
        r == version_of(versions@, string_bytes(*uri), 0),
{
    let mut i: usize = 0;
    while i < versions.len()
        invariant
            0 <= i <= versions@.len(),
            version_of(versions@, string_bytes(*uri), i as int) == version_of(versions@, string_bytes(*uri), 0),
        decreases versions@.len() - i,
    {
        if crate::text::bytes_equal(versions[i].0.as_str().as_bytes(), uri.as_str().as_bytes()) {
            return Some(versions[i].1);
        }
        i = i + 1;
    }
    None
}

/// The document edits with the client's versions.
fn with_versions(documents: Vec<DocumentEdit>, versions: &Vec<(String, i32)>) -> (r: Vec<DocumentEdit>)
    ensures
        document_views(r@) == versioned(document_views(documents@), versions@),
        forall|d: int| 0 <= d < r@.len() ==> (#[trigger] r@[d]).edits@ == documents@[d].edits@,
{
    let ghost original = documents@;
    let mut rest = documents;
    let mut out: Vec<DocumentEdit> = Vec::new();
    while rest.len() > 0
        invariant
            out@.len() + rest@.len() == original.len(),
            rest@ == original.subrange(out@.len() as int, original.len() as int),
            document_views(out@) == versioned(document_views(original.subrange(0, out@.len() as int)), versions@),
            forall|d: int| 0 <= d < out@.len() ==> (#[trigger] out@[d]).edits@ == original[d].edits@,
        decreases rest@.len(),
    {
        let mut d = rest.remove(0);
        let ghost k = out@.len() as int;
        assert(d == original[k]);
        d.version = version_lookup(versions, &d.uri);
        let ghost prefix = out@;
        out.push(d);
        proof {
            assert(original.subrange(0, k + 1) =~= original.subrange(0, k).push(original[k]));
            assert(document_views(original.subrange(0, k + 1)) =~= document_views(original.subrange(0, k)).push(original[k]@));
            let want = versioned(document_views(original.subrange(0, k + 1)), versions@);
            assert forall|j: int| 0 <= j < out@.len() implies #[trigger] document_views(out@)[j] == want[j] by {
                if j < k {
                    assert(out@[j] == prefix[j]);
                    assert(document_views(prefix)[j] == versioned(document_views(original.subrange(0, k)), versions@)[j]);
                    assert(original.subrange(0, k + 1)[j] == original.subrange(0, k)[j]);
                } else {
                    assert(out@[j].uri == original[k].uri);
                    assert(out@[j].edits == original[k].edits);
                    assert(original.subrange(0, k + 1)[j] == original[k]);
                }
            }
            assert(document_views(out@) =~= want);
            assert(rest@ =~= original.subrange(k + 1, original.len() as int));
            assert forall|j: int| 0 <= j < out@.len() implies (#[trigger] out@[j]).edits@ == original[j].edits@ by {
                if j < k {
                    assert(out@[j] == prefix[j]);
                }
            }
        }
    }
    assert(original.subrange(0, original.len() as int) =~= original);
    out
}

/// What preparing a rename at a position answers: the range under the
/// cursor and the canonical declaration's name, when that declaration lies
/// in a project document and, for a script, the client can rename files.
pub open spec fn prepare_rename_spec(
    ws: WorkspaceIndex,
    config: WorkspaceConfig,
    style: PathStyle,
    cur: int,
    p: Position,
    file_rename: bool,
) -> Option<(TextRange, Seq<u8>)> {
    match crate::queries::selection_spec(ws.documents@[cur].semantic, p) {
        None => None,
        Some(range) => match outcome_option(at_spec(ws, cur, p)) {
            None => None,
            Some(d) => {
                let t = canonical_spec(ws, d);
                if !project_document_spec(ws, config, style, t.document as int) {
                    None
                } else if ws.decl(t).kind == DeclarationKind::Script && !file_rename {
                    None
                } else {
                    Some((range, string_bytes(ws.decl(t).name)))
                }
            },
        },
    }
}

impl WorkspaceIndex {
    /// The range and placeholder of a rename at a position (`prepare_rename`).
    pub fn prepare_rename(
        &self,
        cur: usize,
        p: Position,
        supports_file_rename: bool,
        config: &WorkspaceConfig,
        style: PathStyle,
    ) -> (r: Option<(TextRange, String)>)
        requires
            cur < self.documents@.len(),
        ensures
            match prepare_rename_spec(*self, *config, style, cur as int, p, supports_file_rename) {
                None => r is None,
                Some((range, name)) => r matches Some((rr, n)) && rr == range && string_bytes(n) == name,
            },
    {
        let range = match self.selection_range_at(cur, p) {
            Some(range) => range,
            None => return None,
        };
        let d = match self.resolve_at_outcome(cur, p) {
            crate::inference::Resolution::Resolved(d) => d,
            _ => return None,
        };
        let t = self.canonical_declaration(d);
        if !self.is_project_document(t.document, config, style) {
            return None;
        }
        let decl = &self.documents[t.document].semantic.declarations[t.declaration];
        if decl.kind == DeclarationKind::Script && !supports_file_rename {
            return None;
        }
        Some((range, decl.name.clone()))
    }

    /// The edits that rename what a position of the document at `cur`
    /// denotes to `new_name`, with the client's document versions
    /// (`rename_with_versions`).
    pub fn rename_with_versions(
        &self,
        cur: usize,
        p: Position,
        new_name: &str,
        supports_document_changes: bool,
        supports_file_rename: bool,
        document_versions: &Vec<(String, i32)>,
        config: &WorkspaceConfig,
        file_system: &FileSystemView,
    ) -> (r: Result<Option<RenameEdit>, String>)
        requires
            cur < self.documents@.len(),
        ensures
            match rename_spec(
                *self,
                *config,
                cur as int,
                p,
                new_name.spec_bytes(),
                supports_document_changes,
                supports_file_rename,
                file_system.style,
                file_system.destination_exists,
                string_bytes(file_system.current_path),
                document_versions@,
            ) {
                Err(m) => r matches Err(e) && string_bytes(e) == m,
                Ok(None) => r matches Ok(None),
                Ok(Some(v)) => r matches Ok(Some(e)) && e@ == v && writes_name(e.documents@, new_name.spec_bytes()),
            },
    {
        let style = file_system.style;
        let d = match self.resolve_at_outcome(cur, p) {
            crate::inference::Resolution::Resolved(d) => d,
            _ => return Err(owned("The rename target does not resolve uniquely.")),
        };
        let t = self.canonical_declaration(d);
        if !self.is_project_document(t.document, config, style) {
            return Err(owned("Only declarations in project source roots can be renamed."));
        }
        let script = self.documents[t.document].semantic.declarations[t.declaration].kind == DeclarationKind::Script;
        match crate::rename_rules::validate_name(new_name, script) {
            Err(m) => return Err(m),
            Ok(()) => {},
        }
        match self.validate_collision(t, new_name) {
            Err(m) => return Err(m),
            Ok(()) => {},
        }
        if script && !supports_file_rename {
            return Err(owned("The editor does not support the file operation required to rename a Papyrus script."));
        }
        let file_rename = if script {
            match self.script_file_rename(
                t,
                new_name,
                style,
                file_system.destination_exists,
                file_system.current_path.as_str(),
            ) {
                Err(m) => return Err(m),
                Ok(f) => f,
            }
        } else {
            None
        };
        let all = self.references(cur, p, true);
        let locs = self.project_locations(&all, config, style);
        if locs.len() == 0 {
            return Ok(None);
        }
        match self.validate_renamed_references(t, new_name, &locs) {
            Err(m) => return Err(m),
            Ok(()) => {},
        }
        let grouped_edits = group_edits(&locs, new_name);
        let v = file_rename.is_some() || supports_document_changes;
        let documents = if v {
            with_versions(grouped_edits, document_versions)
        } else {
            grouped_edits
        };
        let edit = RenameEdit { versioned: v, documents, file_rename };
        proof {
            assert(edit@.documents == document_views(edit.documents@));
        }
        Ok(Some(edit))
    }
}

impl WorkspaceIndex {
    /// The edits of a rename without client versions (`rename`).
    pub fn rename(
        &self,
        cur: usize,
        p: Position,
        new_name: &str,
        supports_document_changes: bool,
        supports_file_rename: bool,
        config: &WorkspaceConfig,
        file_system: &FileSystemView,
    ) -> (r: Result<Option<RenameEdit>, String>)
        requires
            cur < self.documents@.len(),
        ensures
            match rename_spec(
                *self,
                *config,
                cur as int,
                p,
                new_name.spec_bytes(),
                supports_document_changes,
                supports_file_rename,
                file_system.style,
                file_system.destination_exists,
                string_bytes(file_system.current_path),
                Seq::empty(),
            ) {
                Err(m) => r matches Err(e) && string_bytes(e) == m,
                Ok(None) => r matches Ok(None),
                Ok(Some(v)) => r matches Ok(Some(e)) && e@ == v && writes_name(e.documents@, new_name.spec_bytes()),
            },
    {
        let versions: Vec<(String, i32)> = Vec::new();
        assert(versions@ =~= Seq::<(String, i32)>::empty());
        self.rename_with_versions(
            cur,
            p,
            new_name,
            supports_document_changes,
            supports_file_rename,
            &versions,
            config,
            file_system,
        )
    }
}

/// An edited reference that, spelled with the new name, resolves to the
/// target after the rename.
pub open spec fn resolves_to_target(ws: WorkspaceIndex, t: DeclRef, nn: Seq<u8>, l: LocationView) -> bool {
    let c = document_with_uri(ws, l.uri, 0);
    let os = ws.documents@[c].semantic.occurrences@;
    let k = occurrence_with_range(os, l.range, 0);
    &&& c < ws.documents@.len()
    &&& k < os.len()
    &&& r_occurrence(ws, t, nn, c, os[k]) matches Some(r) && canonical_spec(ws, r) == t
}

proof fn lemma_validation_ok(ws: WorkspaceIndex, t: DeclRef, nn: Seq<u8>, locs: Seq<LocationView>, k: int)
    requires
        0 <= k <= locs.len(),
        validation_upto(ws, t, nn, locs, k) is Ok,
    ensures
        forall|j: int| 0 <= j < k && locs[j] != declaration_location_spec(ws, t) ==> #[trigger] resolves_to_target(ws, t, nn, locs[j]),
        validation_upto(ws, t, nn, locs, k) == Ok::<bool, Seq<u8>>(true) ==> locs.subrange(0, k).contains(declaration_location_spec(ws, t)),
    decreases k,
{
    reveal(edit_problem);
    if k > 0 {
        lemma_validation_ok(ws, t, nn, locs, k - 1);
        if validation_upto(ws, t, nn, locs, k) == Ok::<bool, Seq<u8>>(true) {
            if locs[k - 1] == declaration_location_spec(ws, t) {
                assert(locs.subrange(0, k)[k - 1] == locs[k - 1]);
            } else {
                let pre = locs.subrange(0, k - 1);
                let w = choose|w: int| 0 <= w < pre.len() && #[trigger] pre[w] == declaration_location_spec(ws, t);
                assert(locs.subrange(0, k)[w] == pre[w]);
            }
        }
    }
}

proof fn lemma_project_locations(ws: WorkspaceIndex, config: WorkspaceConfig, style: PathStyle, locs: Seq<LocationView>, k: int)
    ensures
        forall|j: int| 0 <= j < project_locations(ws, config, style, locs, k).len() ==> project_uri_spec(
            ws,
            config,
            style,
            (#[trigger] project_locations(ws, config, style, locs, k)[j]).uri,
        ),
    decreases k,
{
    if k > 0 && k <= locs.len() {
        lemma_project_locations(ws, config, style, locs, k - 1);
        let prev = project_locations(ws, config, style, locs, k - 1);
        assert forall|j: int| 0 <= j < project_locations(ws, config, style, locs, k).len() implies project_uri_spec(
            ws,
            config,
            style,
            (#[trigger] project_locations(ws, config, style, locs, k)[j]).uri,
        ) by {
            if j < prev.len() {
                assert(project_locations(ws, config, style, locs, k)[j] == prev[j]);
            }
        }
    }
}

proof fn lemma_grouped_uris(locs: Seq<LocationView>, k: int)
    ensures
        forall|d: int| 0 <= d < grouped(locs, k).len() ==> exists|j: int| 0 <= j < locs.len() && locs[j].uri == (#[trigger] grouped(locs, k)[d]).uri,
    decreases k,
{
    if k > 0 && k <= locs.len() {
        lemma_grouped_uris(locs, k - 1);
        let g = grouped(locs, k - 1);
        assert forall|d: int| 0 <= d < grouped(locs, k).len() implies exists|j: int| 0 <= j < locs.len() && locs[j].uri == (#[trigger] grouped(locs, k)[d]).uri by {
            if d < g.len() && !(g.len() > 0 && g.last().uri == locs[k - 1].uri && d == g.len() - 1) {
                assert(grouped(locs, k)[d] == g[d]);
            } else {
                assert(grouped(locs, k)[d].uri == locs[k - 1].uri);
            }
        }
    }
}

/// A rename that succeeds edits the renamed declaration's own name, only
/// documents under the project's source roots, and each other edited
/// reference, spelled with the new name, still resolves to the renamed
/// declaration.
pub proof fn law_rename_keeps_references(
    ws: WorkspaceIndex,
    config: WorkspaceConfig,
    cur: int,
    p: Position,
    nn: Seq<u8>,
    document_changes: bool,
    file_rename: bool,
    style: PathStyle,
    destination_exists: bool,
    current: Seq<u8>,
    versions: Seq<(String, i32)>,
)
    requires
        rename_spec(ws, config, cur, p, nn, document_changes, file_rename, style, destination_exists, current, versions) is Ok,
        rename_spec(ws, config, cur, p, nn, document_changes, file_rename, style, destination_exists, current, versions)->Ok_0 is Some,
    ensures
        ({
            let t = canonical_spec(ws, outcome_option(at_spec(ws, cur, p)).unwrap());
            let all = sorted_references(ws, cur, p, true);
            let locs = project_locations(ws, config, style, all, all.len() as int);
            let v = rename_spec(ws, config, cur, p, nn, document_changes, file_rename, style, destination_exists, current, versions)->Ok_0.unwrap();
            &&& locs.contains(declaration_location_spec(ws, t))
            &&& forall|k: int| 0 <= k < locs.len() && locs[k] != declaration_location_spec(ws, t) ==> #[trigger] resolves_to_target(ws, t, nn, locs[k])
            &&& forall|d: int| 0 <= d < v.documents.len() ==> project_uri_spec(ws, config, style, (#[trigger] v.documents[d]).uri)
        }),
{
    let t = canonical_spec(ws, outcome_option(at_spec(ws, cur, p)).unwrap());
    let all = sorted_references(ws, cur, p, true);
    let locs = project_locations(ws, config, style, all, all.len() as int);
    let v = rename_spec(ws, config, cur, p, nn, document_changes, file_rename, style, destination_exists, current, versions)->Ok_0.unwrap();
    lemma_validation_ok(ws, t, nn, locs, locs.len() as int);
    assert(locs.subrange(0, locs.len() as int) =~= locs);
    lemma_project_locations(ws, config, style, all, all.len() as int);
    lemma_grouped_uris(locs, locs.len() as int);
    let groups = grouped(locs, locs.len() as int);
    assert forall|d: int| 0 <= d < v.documents.len() implies project_uri_spec(ws, config, style, (#[trigger] v.documents[d]).uri) by {
        assert(v.documents[d].uri == groups[d].uri);
        let j = choose|j: int| 0 <= j < locs.len() && locs[j].uri == groups[d].uri;
        assert(project_uri_spec(ws, config, style, locs[j].uri));
    }
}


proof fn lemma_document_with_uri(ws: WorkspaceIndex, uri: Seq<u8>, i: int)
    requires
        0 <= i,
        document_with_uri(ws, uri, i) < ws.documents@.len(),
    ensures
        i <= document_with_uri(ws, uri, i),
        string_bytes(ws.documents@[document_with_uri(ws, uri, i)].semantic.uri) == uri,
    decreases ws.documents@.len() - i,
{
    if i < ws.documents@.len() && string_bytes(ws.documents@[i].semantic.uri) != uri {
        lemma_document_with_uri(ws, uri, i + 1);
    }
}

/// A rename edits project sources only: every document it changes is an
/// indexed document with that URI whose path lies under one of the
/// configured source roots.
pub proof fn law_rename_edits_stay_in_source_roots(
    ws: WorkspaceIndex,
    config: WorkspaceConfig,
    cur: int,
    p: Position,
    nn: Seq<u8>,
    document_changes: bool,
    file_rename: bool,
    style: PathStyle,
    destination_exists: bool,
    current: Seq<u8>,
    versions: Seq<(String, i32)>,
)
    requires
        rename_spec(ws, config, cur, p, nn, document_changes, file_rename, style, destination_exists, current, versions) is Ok,
        rename_spec(ws, config, cur, p, nn, document_changes, file_rename, style, destination_exists, current, versions)->Ok_0 is Some,
    ensures
        ({
            let v = rename_spec(ws, config, cur, p, nn, document_changes, file_rename, style, destination_exists, current, versions)->Ok_0.unwrap();
            forall|d: int| 0 <= d < v.documents.len() ==> exists|i: int| 0 <= i < ws.documents@.len()
                && string_bytes(ws.documents@[i].semantic.uri) == (#[trigger] v.documents[d]).uri
                && (ws.documents@[i].path matches Some(path) && under_some(string_bytes(path), config.source_roots@, style))
        }),
{
    law_rename_keeps_references(ws, config, cur, p, nn, document_changes, file_rename, style, destination_exists, current, versions);
    let v = rename_spec(ws, config, cur, p, nn, document_changes, file_rename, style, destination_exists, current, versions)->Ok_0.unwrap();
    assert forall|d: int| 0 <= d < v.documents.len() implies exists|i: int| 0 <= i < ws.documents@.len()
        && string_bytes(ws.documents@[i].semantic.uri) == (#[trigger] v.documents[d]).uri
        && (ws.documents@[i].path matches Some(path) && under_some(string_bytes(path), config.source_roots@, style)) by {
        lemma_project_uri(ws, config, style, v.documents[d].uri);
    }
}

proof fn lemma_project_uri(ws: WorkspaceIndex, config: WorkspaceConfig, style: PathStyle, u: Seq<u8>)
    requires
        project_uri_spec(ws, config, style, u),
    ensures
        exists|i: int| 0 <= i < ws.documents@.len() && string_bytes(ws.documents@[i].semantic.uri) == u
            && (ws.documents@[i].path matches Some(path) && under_some(string_bytes(path), config.source_roots@, style)),
{
    let c = document_with_uri(ws, u, 0);
    lemma_document_with_uri(ws, u, 0);
    assert(project_document_spec(ws, config, style, c));
    assert(0 <= c < ws.documents@.len() && string_bytes(ws.documents@[c].semantic.uri) == u
        && (ws.documents@[c].path matches Some(path) && under_some(string_bytes(path), config.source_roots@, style)));
}

/// A new name that is not valid for the target is always refused: with no
/// rename and no edit, whatever the rest of the request. A name that is not
/// valid even as a script name is refused for every target.
pub proof fn law_invalid_name_is_refused(
    ws: WorkspaceIndex,
    config: WorkspaceConfig,
    cur: int,
    p: Position,
    nn: Seq<u8>,
    document_changes: bool,
    file_rename: bool,
    style: PathStyle,
    destination_exists: bool,
    current: Seq<u8>,
    versions: Seq<(String, i32)>,
)
    ensures
        (outcome_option(at_spec(ws, cur, p)) matches Some(d) && name_problem(
            nn,
            ws.decl(canonical_spec(ws, d)).kind == DeclarationKind::Script,
        ) is Some) ==> rename_spec(ws, config, cur, p, nn, document_changes, file_rename, style, destination_exists, current, versions) is Err,
        name_problem(nn, true) is Some ==> rename_spec(ws, config, cur, p, nn, document_changes, file_rename, style, destination_exists, current, versions) is Err,
{
    if name_problem(nn, true) is Some {
        assert(name_problem(nn, false) is Some);
    }
}
} // verus!
