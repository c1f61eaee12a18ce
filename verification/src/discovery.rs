//! Reading Steam metadata to find the Starfield Creation Kit: the key/value
//! lines of `.acf` and `.vdf` files and the library folders they list.
use vstd::prelude::*;
use vstd::utf8::*;
use vstd::string::StringSliceAdditionalSpecFns;
use crate::cache::{lemma_first_index_bounds, line_content_end};
use crate::config::WorkspaceConfig;
use crate::PapyrusDialect;
use crate::paths::first_index;
use crate::text::{
    ascii_cut, copy_range, equal_ignoring_case, lemma_ascii_valid, lemma_cut_at_ascii,
    lemma_str_valid, lemma_valid_after_ascii, same_ignoring_case, string_bytes,
    string_from_valid, string_from_valid_range,
};

verus! {

broadcast use vstd::utf8::group_utf8_lib;

/// The quotes of the line at `i` that delimit its first two quoted fields:
/// `"key" "value"`. The value ends at the fourth quote or at the line end.
pub open spec fn quote(b: Seq<u8>, i: int, n: nat) -> int
    decreases n,
{
    if n == 0 {
        first_index(b, 34, i)
    } else {
        first_index(b, 34, quote(b, i, (n - 1) as nat) + 1)
    }
}

/// Whether the line at `i` has a key field and a value field.
pub open spec fn has_fields(b: Seq<u8>, i: int) -> bool {
    quote(b, i, 2) < line_content_end(b, i)
}

pub open spec fn key_field(b: Seq<u8>, i: int) -> Seq<u8> {
    b.subrange(quote(b, i, 0) + 1, quote(b, i, 1))
}

pub open spec fn value_end(b: Seq<u8>, i: int) -> int {
    if quote(b, i, 3) < line_content_end(b, i) {
        quote(b, i, 3)
    } else {
        line_content_end(b, i)
    }
}

/// The span of the value of the first line, from position `i` on, whose key
/// field equals `key` without regard to case.
pub open spec fn quoted_lookup(b: Seq<u8>, key: Seq<u8>, i: int) -> Option<(int, int)>
    decreases b.len() - i,
{
    if i < 0 || i >= b.len() {
        None
    } else if has_fields(b, i) && same_ignoring_case(key_field(b, i), key) {
        Some((quote(b, i, 2) + 1, value_end(b, i)))
    } else if first_index(b, 10, i) >= b.len() {
        None
    } else {
        proof {
            lemma_first_index_bounds(b, 10, i);
        }
        quoted_lookup(b, key, first_index(b, 10, i) + 1)
    }
}

proof fn lemma_first_index_after(b: Seq<u8>, c: u8, i: int)
    requires
        0 <= i,
    ensures
        first_index(b, c, i) == b.len() || i <= first_index(b, c, i),
        first_index(b, c, i) <= b.len(),
{
    if i <= b.len() {
        lemma_first_index_bounds(b, c, i);
    }
}

fn find(b: &[u8], c: u8, from: usize) -> (r: usize)
    requires
        from <= b@.len(),
    ensures
        r == first_index(b@, c, from as int),
        from <= r <= b@.len(),
{
    let mut i = from;
    while i < b.len() && b[i] != c
        invariant
            from <= i <= b@.len(),
            first_index(b@, c, i as int) == first_index(b@, c, from as int),
        decreases b@.len() - i,
    {
        i = i + 1;
    }
    i
}

/// The value span of the line at `i` when its key field is `k`.
fn line_field(text: &str, k: &[u8], i: usize) -> (r: Option<(usize, usize)>)
    requires
        i < text.spec_bytes().len(),
    ensures
        r.is_some() == (has_fields(text.spec_bytes(), i as int) && same_ignoring_case(
            key_field(text.spec_bytes(), i as int),
            k@,
        )),
        r matches Some((s, e)) ==> s == quote(text.spec_bytes(), i as int, 2) + 1 && e == value_end(
            text.spec_bytes(),
            i as int,
        ) && s <= e <= text.spec_bytes().len() && valid_utf8(text.spec_bytes().subrange(s as int, e as int)),
{
    let b = text.as_bytes();
        let ghost bb = b@;
        let newline = find(b, 10, i);
        let end = if newline < b.len() && newline > i && b[newline - 1] == 13 {
            newline - 1
        } else {
            newline
        };
        proof {
            lemma_first_index_bounds(bb, 10, i as int);
            lemma_first_index_bounds(bb, 34, i as int);
        }
        let q0 = find(b, 34, i);
        let mut matched = false;
        let mut value_start: usize = 0;
        let mut value_stop: usize = 0;
        if q0 < end {
            let q1 = find(b, 34, q0 + 1);
            proof {
                lemma_first_index_bounds(bb, 34, q0 + 1);
            }
            if q1 < end {
                let q2 = find(b, 34, q1 + 1);
                proof {
                    lemma_first_index_bounds(bb, 34, q1 + 1);
                }
                if q2 < end {
                    let q3 = find(b, 34, q2 + 1);
                    proof {
                        lemma_first_index_bounds(bb, 34, q2 + 1);
                        assert(quote(bb, i as int, 0) == q0);
                        assert(quote(bb, i as int, 1) == q1);
                        assert(quote(bb, i as int, 2) == q2);
                        assert(quote(bb, i as int, 3) == q3);
                    }
                    let found = copy_range(b, q0 + 1, q1);
                    if equal_ignoring_case(found.as_slice(), k) {
                        matched = true;
                        value_start = q2 + 1;
                        value_stop = if q3 < end {
                            q3
                        } else {
                            end
                        };
                        proof {
                            lemma_str_valid(text);
                            lemma_valid_after_ascii(bb, q2 + 1);
                            let tail = bb.subrange(q2 + 1, bb.len() as int);
                            let cut = value_stop - (q2 + 1);
                            if value_stop < bb.len() {
                                assert(tail[cut] == bb[value_stop as int]);
                                assert(bb[value_stop as int] == 34 || bb[value_stop as int] == 10
                                    || bb[value_stop as int] == 13);
                            }
                            lemma_cut_at_ascii(tail, cut);
                            assert(tail.subrange(0, cut) =~= bb.subrange(
                                q2 + 1,
                                value_stop as int,
                            ));
                        }
                    }
                } else {
                    proof {
                        assert(quote(bb, i as int, 0) == q0);
                        assert(quote(bb, i as int, 1) == q1);
                        assert(quote(bb, i as int, 2) == q2);
                    }
                }
            } else {
                proof {
                    assert(quote(bb, i as int, 0) == q0);
                    assert(quote(bb, i as int, 1) == q1);
                    lemma_first_index_after(bb, 34, q1 + 1);
                    assert(quote(bb, i as int, 2) == first_index(bb, 34, q1 + 1));
                }
            }
        } else {
            proof {
                assert(quote(bb, i as int, 0) == q0);
                lemma_first_index_after(bb, 34, q0 + 1);
                let q1 = first_index(bb, 34, q0 + 1);
                assert(quote(bb, i as int, 1) == q1);
                lemma_first_index_after(bb, 34, q1 + 1);
                assert(quote(bb, i as int, 2) == first_index(bb, 34, q1 + 1));
            }
        }
        if matched {
            Some((value_start, value_stop))
        } else {
            None
        }
}

/// The value of the first line `"key" "value"` of a Steam metadata text,
/// comparing keys without regard to case.
pub fn quoted_value(text: &str, key: &str) -> (r: Option<String>)
    ensures
        r.is_some() == quoted_lookup(text.spec_bytes(), key.spec_bytes(), 0).is_some(),
        r matches Some(v) ==> ({
            let (s, e) = quoted_lookup(text.spec_bytes(), key.spec_bytes(), 0).unwrap();
            string_bytes(v) == text.spec_bytes().subrange(s, e)
        }),
{
    let b = text.as_bytes();
    let k = key.as_bytes();
    let mut i: usize = 0;
    while i < b.len()
        invariant
            b@ == text.spec_bytes(),
            k@ == key.spec_bytes(),
            0 <= i <= b@.len(),
            quoted_lookup(b@, k@, i as int) == quoted_lookup(b@, k@, 0),
        decreases b@.len() - i,
    {
        let ghost bb = b@;
        let newline = find(b, 10, i);
        if let Some((value_start, value_stop)) = line_field(text, k, i) {
            return Some(string_from_valid_range(b, value_start, value_stop));
        }
        if newline == b.len() {
            return None;
        }
        i = newline + 1;
    }
    None
}

/// Doubled backslashes read as one, left to right (`replace("\\\\", "\\")`).
pub open spec fn collapse_backslashes(v: Seq<u8>) -> Seq<u8>
    decreases v.len(),
{
    if v.len() == 0 {
        v
    } else if v.len() >= 2 && v[0] == 92 && v[1] == 92 {
        seq![92u8] + collapse_backslashes(v.subrange(2, v.len() as int))
    } else {
        seq![v[0]] + collapse_backslashes(v.drop_first())
    }
}

/// The library folders read from the lines from `i` on of a
/// `libraryfolders.vdf` text, after those in `acc`: the value of each
/// `"path"` line with doubled backslashes collapsed, each text once.
pub open spec fn folders_from(b: Seq<u8>, i: int, acc: Seq<Seq<u8>>) -> Seq<Seq<u8>>
    decreases b.len() - i,
{
    if i < 0 || i >= b.len() {
        acc
    } else {
        let acc2 = if has_fields(b, i) && same_ignoring_case(key_field(b, i), "path".spec_bytes()) {
            let v = collapse_backslashes(b.subrange(quote(b, i, 2) + 1, value_end(b, i)));
            if acc.contains(v) {
                acc
            } else {
                acc.push(v)
            }
        } else {
            acc
        };
        if first_index(b, 10, i) >= b.len() {
            acc2
        } else {
            proof {
                lemma_first_index_bounds(b, 10, i);
            }
            folders_from(b, first_index(b, 10, i) + 1, acc2)
        }
    }
}

pub open spec fn byte_texts(v: Seq<Vec<u8>>) -> Seq<Seq<u8>> {
    v.map_values(|x: Vec<u8>| x@)
}

fn collapse_range(b: &[u8], start: usize, end: usize) -> (r: Vec<u8>)
    requires
        start <= end <= b@.len(),
    ensures
        r@ == collapse_backslashes(b@.subrange(start as int, end as int)),
{
    let mut out: Vec<u8> = Vec::new();
    let mut i = start;
    while i < end
        invariant
            start <= i <= end <= b@.len(),
            out@ + collapse_backslashes(b@.subrange(i as int, end as int)) == collapse_backslashes(
                b@.subrange(start as int, end as int),
            ),
        decreases end - i,
    {
        let ghost v = b@.subrange(i as int, end as int);
        if end - i >= 2 && b[i] == 92 && b[i + 1] == 92 {
            assert(v.subrange(2, v.len() as int) =~= b@.subrange(i + 2, end as int));
            out.push(92);
            i = i + 2;
            assert(out@ + collapse_backslashes(b@.subrange(i as int, end as int)) =~= out@.drop_last() + (seq![92u8] + collapse_backslashes(b@.subrange(i as int, end as int))));
        } else {
            assert(v.drop_first() =~= b@.subrange(i + 1, end as int));
            out.push(b[i]);
            i = i + 1;
            assert(out@ + collapse_backslashes(b@.subrange(i as int, end as int)) =~= out@.drop_last() + (seq![v[0]] + collapse_backslashes(b@.subrange(i as int, end as int))));
        }
    }
    assert(b@.subrange(end as int, end as int) =~= Seq::<u8>::empty());
    assert(out@ + Seq::<u8>::empty() =~= out@);
    out
}

fn contains_text(acc: &Vec<Vec<u8>>, v: &Vec<u8>) -> (r: bool)
    ensures
        r == byte_texts(acc@).contains(v@),
{
    let mut i: usize = 0;
    while i < acc.len()
        invariant
            0 <= i <= acc@.len(),
            forall|k: int| 0 <= k < i ==> (#[trigger] byte_texts(acc@)[k]) != v@,
        decreases acc@.len() - i,
    {
        if crate::text::bytes_equal(acc[i].as_slice(), v.as_slice()) {
            assert(byte_texts(acc@)[i as int] == v@);
            return true;
        }
        i = i + 1;
    }
    false
}

/// The Steam library folders: the root, then the folders that the text of
/// its `libraryfolders.vdf` lists, once the caller has read that file.
/// Folders are compared by their text.
pub fn library_folders(root: &str, text: &str) -> (r: Vec<Vec<u8>>)
    ensures
        byte_texts(r@) == folders_from(text.spec_bytes(), 0, seq![root.spec_bytes()]),
{
    let b = text.as_bytes();
    let rb = root.as_bytes();
    let mut acc: Vec<Vec<u8>> = Vec::new();
    acc.push(copy_range(rb, 0, rb.len()));
    assert(rb@.subrange(0, rb@.len() as int) =~= rb@);
    assert(byte_texts(acc@) =~= seq![root.spec_bytes()]);
    let mut i: usize = 0;
    while i < b.len()
        invariant
            b@ == text.spec_bytes(),
            0 <= i <= b@.len(),
            folders_from(b@, i as int, byte_texts(acc@)) == folders_from(b@, 0, seq![root.spec_bytes()]),
        decreases b@.len() - i,
    {
        let ghost before = byte_texts(acc@);
        let newline = find(b, 10, i);
        proof {
            lemma_first_index_bounds(b@, 10, i as int);
        }
        if let Some((s, e)) = line_field(text, "path".as_bytes(), i) {
            let v = collapse_range(b, s, e);
            if !contains_text(&acc, &v) {
                acc.push(v);
                assert(byte_texts(acc@) =~= before.push(collapse_backslashes(b@.subrange(s as int, e as int))));
            }
        }
        if newline == b.len() {
            return acc;
        }
        i = newline + 1;
    }
    acc
}


/// Source locations that a Starfield Creation Kit installation supplies:
/// the installed source tree, preferred when present, and the source
/// archive used otherwise.
pub struct StarfieldSources {
    pub source_directory: Option<String>,
    pub archive: Option<String>,
}

/// Where the preparation of a workspace configuration stands. Each state
/// that waits holds the configuration built so far.
pub enum DiscoveryState {
    /// Nothing done yet.
    Start(WorkspaceConfig),
    /// Waiting for the installed Creation Kit sources to be looked up.
    Discovering(WorkspaceConfig),
    /// Waiting for the source archive to be materialized.
    Materializing(WorkspaceConfig),
    /// The configuration has been handed out.
    Done,
}

/// What the caller reports back after performing an action.
pub enum DiscoveryEvent {
    /// Preparation may begin; `cancelled` tells whether indexing was cancelled.
    Begin { cancelled: bool },
    /// The Creation Kit lookup found these sources, or none.
    Discovered { sources: Option<StarfieldSources>, cancelled: bool },
    /// Materializing the archive gave this source root, or failed.
    Materialized { root: Option<String>, cancelled: bool },
}

/// What the caller does next.
pub enum DiscoveryAction {
    /// Look up the installed Creation Kit sources.
    Discover,
    /// Materialize the source archive at this path.
    MaterializeArchive(String),
    /// Use the installed source tree: the configuration now imports it.
    UseSourceTree { directory: String, config: WorkspaceConfig },
    /// Index with this configuration.
    Finish(WorkspaceConfig),
    /// Indexing was cancelled.
    Cancel,
    /// The event does not answer the current state; nothing changes.
    Ignore,
}

/// The configuration fields are those of `c`, viewed.
pub open spec fn same_config(a: WorkspaceConfig, c: WorkspaceConfig) -> bool {
    &&& a.dialect == c.dialect
    &&& a.source_roots@ == c.source_roots@
    &&& a.import_directories@ == c.import_directories@
    &&& a.discovered_import_directories@ == c.discovered_import_directories@
}

/// `a` is `c` with `path` added as a discovered import, unless one of the
/// roots of `c` already is that path.
pub open spec fn with_import(a: WorkspaceConfig, c: WorkspaceConfig, path: String) -> bool {
    &&& a.dialect == c.dialect
    &&& a.source_roots@ == c.source_roots@
    &&& a.import_directories@ == c.import_directories@
    &&& if crate::config::views(c.spec_roots()).contains(path@) {
        a.discovered_import_directories@ == c.discovered_import_directories@
    } else {
        a.discovered_import_directories@ == c.discovered_import_directories@.push(path)
    }
}

/// The configuration after an optional import has been added, then the end
/// of preparation: cancelled, or finished with it.
pub open spec fn finishes_with(
    r: (DiscoveryState, DiscoveryAction),
    c: WorkspaceConfig,
    root: Option<String>,
    cancelled: bool,
) -> bool {
    &&& r.0 is Done
    &&& if cancelled {
        r.1 is Cancel
    } else {
        r.1 matches DiscoveryAction::Finish(a) && match root {
            Some(p) => with_import(a, c, p),
            None => same_config(a, c),
        }
    }
}

/// One step of preparing the workspace configuration before indexing: only
/// the Starfield dialect looks for Creation Kit sources; an installed source
/// tree is imported directly, otherwise the source archive is materialized
/// and its root imported. Cancellation is honoured at the start and after an
/// import is added; when no sources are found the configuration is used as
/// it is.
pub fn discovery_step(state: DiscoveryState, event: DiscoveryEvent) -> (r: (DiscoveryState, DiscoveryAction))
    ensures
        match (state, event) {
            (DiscoveryState::Start(c), DiscoveryEvent::Begin { cancelled }) => if cancelled {
                r.0 is Done && r.1 is Cancel
            } else if c.dialect != PapyrusDialect::Starfield {
                r.0 is Done && (r.1 matches DiscoveryAction::Finish(a) && same_config(a, c))
            } else {
                (r.0 matches DiscoveryState::Discovering(s) && same_config(s, c)) && r.1 is Discover
            },
            (DiscoveryState::Discovering(c), DiscoveryEvent::Discovered { sources, cancelled }) => match sources {
                None => r.0 is Done && (r.1 matches DiscoveryAction::Finish(a) && same_config(a, c)),
                Some(found) => match found.source_directory {
                    Some(dir) => r.0 is Done && if cancelled {
                        r.1 is Cancel
                    } else {
                        r.1 matches DiscoveryAction::UseSourceTree { directory, config } && directory@
                            == dir@ && with_import(config, c, dir)
                    },
                    None => match found.archive {
                        Some(archive) => (r.0 matches DiscoveryState::Materializing(s) && same_config(s, c))
                            && (r.1 matches DiscoveryAction::MaterializeArchive(p) && p@ == archive@),
                        None => finishes_with(r, c, None, cancelled),
                    },
                },
            },
            (DiscoveryState::Materializing(c), DiscoveryEvent::Materialized { root, cancelled }) => finishes_with(
                r,
                c,
                root,
                cancelled,
            ),
            _ => r.1 is Ignore && r.0 == state,
        },
{
    match (state, event) {
        (DiscoveryState::Start(c), DiscoveryEvent::Begin { cancelled }) => {
            if cancelled {
                (DiscoveryState::Done, DiscoveryAction::Cancel)
            } else if c.dialect != PapyrusDialect::Starfield {
                (DiscoveryState::Done, DiscoveryAction::Finish(c))
            } else {
                (DiscoveryState::Discovering(c), DiscoveryAction::Discover)
            }
        },
        (DiscoveryState::Discovering(c), DiscoveryEvent::Discovered { sources, cancelled }) => {
            match sources {
                None => (DiscoveryState::Done, DiscoveryAction::Finish(c)),
                Some(found) => match found.source_directory {
                    Some(dir) => {
                        if cancelled {
                            (DiscoveryState::Done, DiscoveryAction::Cancel)
                        } else {
                            let mut config = c;
                            let directory = dir.clone();
                            config.add_discovered_import(dir);
                            (DiscoveryState::Done, DiscoveryAction::UseSourceTree { directory, config })
                        }
                    },
                    None => match found.archive {
                        Some(archive) => (
                            DiscoveryState::Materializing(c),
                            DiscoveryAction::MaterializeArchive(archive),
                        ),
                        None => finish(c, None, cancelled),
                    },
                },
            }
        },
        (DiscoveryState::Materializing(c), DiscoveryEvent::Materialized { root, cancelled }) => {
            finish(c, root, cancelled)
        },
        (s, _) => (s, DiscoveryAction::Ignore),
    }
}

fn finish(c: WorkspaceConfig, root: Option<String>, cancelled: bool) -> (r: (DiscoveryState, DiscoveryAction))
    ensures
        finishes_with(r, c, root, cancelled),
{
    if cancelled {
        return (DiscoveryState::Done, DiscoveryAction::Cancel);
    }
    let mut config = c;
    match root {
        Some(p) => {
            config.add_discovered_import(p);
        },
        None => {},
    }
    (DiscoveryState::Done, DiscoveryAction::Finish(config))
}

} // verus!
