//! Workspace settings: the dialect, the project source roots and the import
//! directories, configured by the editor or discovered from installed games.
//!
//! Paths are compared as text. Deduplication compares canonical forms that the
//! caller obtains from the file system.
use vstd::prelude::*;
use crate::PapyrusDialect;
use crate::paths::{PathStyle, file_uri_path, file_uri_to_path};
use crate::text::string_bytes;
use vstd::string::StringSliceAdditionalSpecFns;

verus! {

/// Editor-neutral workspace settings supplied through LSP initialization options.
#[derive(Clone, Debug)]
pub struct WorkspaceConfig {
    pub dialect: PapyrusDialect,
    pub source_roots: Vec<String>,
    pub import_directories: Vec<String>,
    pub discovered_import_directories: Vec<String>,
}

impl Default for WorkspaceConfig {
    fn default() -> (r: Self)
        ensures
            r.dialect == PapyrusDialect::Auto,
            r.source_roots@.len() == 0,
            r.import_directories@.len() == 0,
            r.discovered_import_directories@.len() == 0,
    {
        WorkspaceConfig {
            dialect: PapyrusDialect::Auto,
            source_roots: Vec::new(),
            import_directories: Vec::new(),
            discovered_import_directories: Vec::new(),
        }
    }
}

/// The paths that the local `file:` URIs among the given ones name, in order.
pub open spec fn local_paths(uris: Seq<String>, style: PathStyle) -> Seq<Seq<u8>>
    decreases uris.len(),
{
    if uris.len() == 0 {
        Seq::empty()
    } else {
        let rest = local_paths(uris.drop_last(), style);
        match file_uri_path(string_bytes(uris.last()), style) {
            Some(p) => rest.push(p),
            None => rest,
        }
    }
}

/// The text of each path.
pub open spec fn texts(paths: Seq<String>) -> Seq<Seq<u8>> {
    paths.map_values(|p: String| string_bytes(p))
}

/// The roots that initialization gives when the options name none: the local
/// workspace folders, else the path of the root URI, if it is local.
pub open spec fn fallback_roots(
    folder_uris: Seq<String>,
    root_uri: Option<String>,
    style: PathStyle,
) -> Seq<Seq<u8>> {
    if local_paths(folder_uris, style).len() > 0 {
        local_paths(folder_uris, style)
    } else {
        match root_uri {
            Some(uri) => match file_uri_path(string_bytes(uri), style) {
                Some(p) => seq![p],
                None => Seq::empty(),
            },
            None => Seq::empty(),
        }
    }
}

/// The text of each string.
pub open spec fn views(strings: Seq<String>) -> Seq<Seq<char>> {
    strings.map_values(|s: String| s@)
}

/// The first `n` items without each item whose key an earlier item has.
pub open spec fn deduplicated<T>(items: Seq<T>, keys: Seq<Seq<char>>, n: int) -> Seq<T>
    decreases n,
{
    if n <= 0 {
        Seq::empty()
    } else {
        let kept = deduplicated(items, keys, n - 1);
        if keys.subrange(0, n - 1).contains(keys[n - 1]) {
            kept
        } else {
            kept.push(items[n - 1])
        }
    }
}

/// Deduplication keeps one item for each key that occurs.
pub proof fn lemma_deduplicated_keys(keys: Seq<Seq<char>>, n: int)
    requires
        0 <= n <= keys.len(),
    ensures
        forall|x: Seq<char>| #[trigger] deduplicated(keys, keys, n).contains(x) <==> keys.subrange(0, n).contains(x),
    decreases n,
{
    if n > 0 {
        lemma_deduplicated_keys(keys, n - 1);
        let prev = keys.subrange(0, n - 1);
        assert(keys.subrange(0, n) =~= prev.push(keys[n - 1]));
        let d0 = deduplicated(keys, keys, n - 1);
        let d = deduplicated(keys, keys, n);
        assert forall|x: Seq<char>| #[trigger] d.contains(x) <==> keys.subrange(0, n).contains(x) by {
            // keys[0..n] holds x iff keys[0..n-1] holds it or it is the last key
            if keys.subrange(0, n).contains(x) {
                let k = choose|k: int| 0 <= k < n && keys.subrange(0, n)[k] == x;
                if k < n - 1 {
                    assert(prev[k] == x);
                }
            }
            if prev.contains(x) {
                let m = choose|m: int| 0 <= m < n - 1 && prev[m] == x;
                assert(keys.subrange(0, n)[m] == x);
            }
            assert(keys.subrange(0, n)[n - 1] == keys[n - 1]);
            assert(keys.subrange(0, n).contains(x) <==> (prev.contains(x) || x == keys[n - 1]));
            if prev.contains(keys[n - 1]) {
                assert(d == d0);
            } else {
                assert(d == d0.push(keys[n - 1]));
                if d.contains(x) {
                    let k = choose|k: int| 0 <= k < d.len() && d[k] == x;
                    if k < d0.len() {
                        assert(d0[k] == x);
                    }
                }
                if d0.contains(x) {
                    let k = choose|k: int| 0 <= k < d0.len() && d0[k] == x;
                    assert(d[k] == x);
                }
                assert(d[d0.len() as int] == keys[n - 1]);
            }
        }
    }
}

/// The local paths among the URIs.
fn paths_of_uris(uris: &Vec<String>, style: PathStyle) -> (r: Vec<String>)
    ensures
        texts(r@) == local_paths(uris@, style),
{
    let mut out: Vec<String> = Vec::new();
    let mut i: usize = 0;
    while i < uris.len()
        invariant
            0 <= i <= uris@.len(),
            texts(out@) == local_paths(uris@.subrange(0, i as int), style),
        decreases uris@.len() - i,
    {
        proof {
            let s = uris@.subrange(0, i + 1);
            assert(s.drop_last() =~= uris@.subrange(0, i as int));
            assert(s.last() == uris@[i as int]);
        }
        match file_uri_to_path(uris[i].as_str(), style) {
            Some(p) => {
                out.push(p);
                assert(texts(out@) =~= local_paths(uris@.subrange(0, i + 1), style));
            },
            None => {},
        }
        i = i + 1;
    }
    assert(uris@.subrange(0, uris@.len() as int) =~= uris@);
    out
}

/// Removes every path whose canonical form an earlier path has; the first of
/// each stays, in order. `canonical[i]` is the canonical form of `paths[i]`.
pub fn deduplicate(paths: &mut Vec<String>, canonical: &Vec<String>)
    requires
        canonical@.len() == old(paths)@.len(),
    ensures
        final(paths)@ == deduplicated(old(paths)@, views(canonical@), old(paths)@.len() as int),
{
    let ghost original = paths@;
    let ghost keys = views(canonical@);
    let mut kept: Vec<String> = Vec::new();
    let mut seen: Vec<String> = Vec::new();
    let mut i: usize = 0;
    while i < paths.len()
        invariant
            paths@ == original,
            keys == views(canonical@),
            canonical@.len() == original.len(),
            0 <= i <= original.len(),
            kept@ == deduplicated(original, keys, i as int),
            views(seen@) == deduplicated(keys, keys, i as int),
        decreases original.len() - i,
    {
        let candidate = &canonical[i];
        let mut found = false;
        let mut j: usize = 0;
        while j < seen.len()
            invariant
                0 <= j <= seen@.len(),
                found <==> exists|k: int| 0 <= k < j && seen@[k]@ == candidate@,
            decreases seen@.len() - j,
        {
            if seen[j] == *candidate {
                found = true;
            }
            j = j + 1;
        }
        proof {
            lemma_deduplicated_keys(keys, i as int);
            assert(keys[i as int] == candidate@);
            if found {
                let k = choose|k: int| 0 <= k < seen@.len() && seen@[k]@ == candidate@;
                assert(views(seen@)[k] == candidate@);
                assert(views(seen@).contains(keys[i as int]));
            } else {
                if views(seen@).contains(keys[i as int]) {
                    let k = choose|k: int| 0 <= k < views(seen@).len() && views(seen@)[k] == keys[i as int];
                    assert(seen@[k]@ == candidate@);
                }
            }
        }
        if !found {
            kept.push(paths[i].clone());
            seen.push(candidate.clone());
            assert(views(seen@) =~= deduplicated(keys, keys, i + 1));
        }
        i = i + 1;
    }
    *paths = kept;
}

impl WorkspaceConfig {
    /// All roots: source roots, then configured imports, then discovered imports.
    pub open spec fn spec_roots(&self) -> Seq<String> {
        self.source_roots@ + self.import_directories@ + self.discovered_import_directories@
    }

    pub fn roots(&self) -> (r: Vec<String>)
        ensures
            r@ == self.spec_roots(),
    {
        let mut out: Vec<String> = Vec::new();
        let mut i: usize = 0;
        while i < self.source_roots.len()
            invariant
                0 <= i <= self.source_roots@.len(),
                out@ == self.source_roots@.subrange(0, i as int),
            decreases self.source_roots@.len() - i,
        {
            out.push(self.source_roots[i].clone());
            i = i + 1;
            assert(out@ =~= self.source_roots@.subrange(0, i as int));
        }
        assert(self.source_roots@.subrange(0, i as int) =~= self.source_roots@);
        let mut i: usize = 0;
        while i < self.import_directories.len()
            invariant
                0 <= i <= self.import_directories@.len(),
                out@ == self.source_roots@ + self.import_directories@.subrange(0, i as int),
            decreases self.import_directories@.len() - i,
        {
            out.push(self.import_directories[i].clone());
            i = i + 1;
            assert(out@ =~= self.source_roots@ + self.import_directories@.subrange(0, i as int));
        }
        assert(self.import_directories@.subrange(0, i as int) =~= self.import_directories@);
        let mut i: usize = 0;
        while i < self.discovered_import_directories.len()
            invariant
                0 <= i <= self.discovered_import_directories@.len(),
                out@ == self.source_roots@ + self.import_directories@
                    + self.discovered_import_directories@.subrange(0, i as int),
            decreases self.discovered_import_directories@.len() - i,
        {
            out.push(self.discovered_import_directories[i].clone());
            i = i + 1;
            assert(out@ =~= self.source_roots@ + self.import_directories@
                + self.discovered_import_directories@.subrange(0, i as int));
        }
        assert(self.discovered_import_directories@.subrange(0, i as int)
            =~= self.discovered_import_directories@);
        out
    }

    /// Adds a discovered import directory unless some root already is that path.
    pub fn add_discovered_import(&mut self, path: String)
        ensures
            final(self).dialect == old(self).dialect,
            final(self).source_roots@ == old(self).source_roots@,
            final(self).import_directories@ == old(self).import_directories@,
            views(old(self).spec_roots()).contains(path@) ==> final(self).discovered_import_directories@
                == old(self).discovered_import_directories@,
            !views(old(self).spec_roots()).contains(path@) ==> final(self).discovered_import_directories@
                == old(self).discovered_import_directories@.push(path),
    {
        let roots = self.roots();
        let mut present = false;
        let mut i: usize = 0;
        while i < roots.len()
            invariant
                0 <= i <= roots@.len(),
                present <==> exists|k: int| 0 <= k < i && roots@[k]@ == path@,
            decreases roots@.len() - i,
        {
            if roots[i] == path {
                present = true;
            }
            i = i + 1;
        }
        proof {
            if present {
                let k = choose|k: int| 0 <= k < roots@.len() && roots@[k]@ == path@;
                assert(views(roots@)[k] == path@);
            }
            if views(roots@).contains(path@) {
                let k = choose|k: int| 0 <= k < views(roots@).len() && views(roots@)[k] == path@;
                assert(roots@[k]@ == path@);
            }
        }
        if !present {
            self.discovered_import_directories.push(path);
        }
    }

    /// The settings that initialization gives, before deduplication: the
    /// parsed options (the defaults when they are missing or invalid), whose
    /// source roots default to the local workspace folders or else to the
    /// path of the root URI.
    pub fn from_initialize(
        options: Option<WorkspaceConfig>,
        folder_uris: &Vec<String>,
        root_uri: Option<String>,
        style: PathStyle,
    ) -> (r: WorkspaceConfig)
        ensures
            options matches Some(o) ==> r.dialect == o.dialect && r.import_directories@
                == o.import_directories@ && r.discovered_import_directories@
                == o.discovered_import_directories@,
            options is None ==> r.dialect == PapyrusDialect::Auto && r.import_directories@.len()
                == 0 && r.discovered_import_directories@.len() == 0,
            options matches Some(o) ==> (o.source_roots@.len() > 0 ==> r.source_roots@
                == o.source_roots@),
            (options is None || options.unwrap().source_roots@.len() == 0) ==> texts(
                r.source_roots@,
            ) == fallback_roots(folder_uris@, root_uri, style),
    {
        let mut config = match options {
            Some(o) => o,
            None => WorkspaceConfig::default(),
        };
        if config.source_roots.len() == 0 {
            let workspace_roots = paths_of_uris(folder_uris, style);
            if workspace_roots.len() == 0 {
                match root_uri {
                    Some(uri) => match file_uri_to_path(uri.as_str(), style) {
                        Some(p) => {
                            config.source_roots.push(p);
                            assert(texts(config.source_roots@) =~= seq![string_bytes(p)]);
                        },
                        None => {
                            assert(texts(config.source_roots@) =~= Seq::<Seq<u8>>::empty());
                        },
                    },
                    None => {
                        assert(texts(config.source_roots@) =~= Seq::<Seq<u8>>::empty());
                    },
                }
            } else {
                config.source_roots = workspace_roots;
            }
        }
        config
    }
}

/// A path separator of a path style: `/`, and on Windows `\\` too.
pub open spec fn separates(b: u8, style: PathStyle) -> bool {
    b == 47 || (style == PathStyle::Windows && b == 92)
}

/// `path` lies under `root`, compared by whole components: it starts with
/// the root's text, which ends there, at a separator, or with one.
pub open spec fn path_under(path: Seq<u8>, root: Seq<u8>, style: PathStyle) -> bool {
    &&& root.len() <= path.len()
    &&& path.subrange(0, root.len() as int) == root
    &&& (path.len() == root.len() || (root.len() > 0 && separates(root.last(), style)) || separates(
        path[root.len() as int],
        style,
    ))
}

/// Whether some root holds the path.
pub open spec fn under_some(path: Seq<u8>, roots: Seq<String>, style: PathStyle) -> bool {
    exists|i: int| 0 <= i < roots.len() && path_under(path, string_bytes(#[trigger] roots[i]), style)
}

/// The priority of a file by where it lies: 2 under an import directory,
/// 3 under a discovered import directory, 1 under a source root, else 3.
pub open spec fn priority_spec(config: WorkspaceConfig, path: Seq<u8>, style: PathStyle) -> u8 {
    if under_some(path, config.import_directories@, style) {
        2
    } else if under_some(path, config.discovered_import_directories@, style) {
        3
    } else if under_some(path, config.source_roots@, style) {
        1
    } else {
        3
    }
}

fn is_under(path: &[u8], root: &[u8], style: PathStyle) -> (r: bool)
    ensures
        r == path_under(path@, root@, style),
{
    if root.len() > path.len() {
        return false;
    }
    let head = crate::text::copy_range(path, 0, root.len());
    if !crate::text::bytes_equal(head.as_slice(), root) {
        return false;
    }
    let sep = |b: u8| -> (r: bool)
        ensures
            r == separates(b, style),
        { b == 47 || (style == PathStyle::Windows && b == 92) };
    path.len() == root.len() || (root.len() > 0 && sep(root[root.len() - 1])) || sep(path[root.len()])
}

pub(crate) fn under_any(path: &[u8], roots: &Vec<String>, style: PathStyle) -> (r: bool)
    ensures
        r == under_some(path@, roots@, style),
{
    let mut i: usize = 0;
    while i < roots.len()
        invariant
            0 <= i <= roots@.len(),
            forall|k: int| 0 <= k < i ==> !path_under(path@, string_bytes(#[trigger] roots@[k]), style),
        decreases roots@.len() - i,
    {
        if is_under(path, roots[i].as_str().as_bytes(), style) {
            return true;
        }
        i = i + 1;
    }
    false
}

impl WorkspaceConfig {
    /// The priority of a file by where it lies (`path_priority`); a lower
    /// priority wins when scripts share a name.
    pub fn path_priority(&self, path: &str, style: PathStyle) -> (r: u8)
        ensures
            r == priority_spec(*self, path.spec_bytes(), style),
    {
        let p = path.as_bytes();
        if under_any(p, &self.import_directories, style) {
            2
        } else if under_any(p, &self.discovered_import_directories, style) {
            3
        } else if under_any(p, &self.source_roots, style) {
            1
        } else {
            3
        }
    }
}


/// The dialect that the initialization options name, in lowercase:
/// `auto`, `skyrim`, `fallout4` or `starfield`.
pub open spec fn dialect_named(name: Seq<u8>) -> Option<PapyrusDialect> {
    if name == "auto".spec_bytes() {
        Some(PapyrusDialect::Auto)
    } else if name == "skyrim".spec_bytes() {
        Some(PapyrusDialect::Skyrim)
    } else if name == "fallout4".spec_bytes() {
        Some(PapyrusDialect::Fallout4)
    } else if name == "starfield".spec_bytes() {
        Some(PapyrusDialect::Starfield)
    } else {
        None
    }
}

/// The dialect an option value names; `None` for any other text, which
/// makes the options as a whole invalid.
pub fn dialect_from_name(name: &str) -> (r: Option<PapyrusDialect>)
    ensures
        r == dialect_named(name.spec_bytes()),
{
    let b = name.as_bytes();
    if crate::text::bytes_equal(b, "auto".as_bytes()) {
        Some(PapyrusDialect::Auto)
    } else if crate::text::bytes_equal(b, "skyrim".as_bytes()) {
        Some(PapyrusDialect::Skyrim)
    } else if crate::text::bytes_equal(b, "fallout4".as_bytes()) {
        Some(PapyrusDialect::Fallout4)
    } else if crate::text::bytes_equal(b, "starfield".as_bytes()) {
        Some(PapyrusDialect::Starfield)
    } else {
        None
    }
}
} // verus!
