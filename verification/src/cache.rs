//! Rules of the Starfield source cache: which archive entries are extracted,
//! the safety limits, and when a published cache directory is complete.
//!
//! Reading the archive and writing files is the caller's part; it asks these
//! functions what to do with each entry and whether a cache can be reused.
use vstd::prelude::*;
use vstd::utf8::*;
use vstd::string::StringSliceAdditionalSpecFns;
use crate::paths::{first_index, is_generated_source, spec_is_generated_source, PathStyle};
use crate::text::{
    lemma_ascii_valid,
    ascii_cut, bytes_equal, copy_range, equal_ignoring_case, is_digit, is_hex, is_hex_byte, lower_seq,
    owned, same_ignoring_case, string_bytes, string_from_range, append_text,
};

verus! {

broadcast use vstd::utf8::group_utf8_lib;

/// The schema written into the completion marker of a cache directory.
pub const STARFIELD_CACHE_VERSION: u32 = 1;
/// At most this many entries in an archive.
pub const MAX_ARCHIVE_ENTRIES: usize = 100000;
/// At most this many retained sources.
pub const MAX_SOURCE_FILES: usize = 50000;
/// At most this many bytes in one source.
pub const MAX_SOURCE_FILE_BYTES: u64 = 16777216;
/// At most this many bytes extracted in all.
pub const MAX_EXTRACTED_BYTES: u64 = 1073741824;
/// At most this many components in a source path.
pub const MAX_SOURCE_DEPTH: usize = 64;

/// What went wrong while materializing sources.
#[derive(Clone, Copy, Debug, PartialEq, Eq, Structural)]
pub enum CacheErrorKind {
    Interrupted,
    InvalidData,
}

/// An error of the source cache, with the text shown to the user.
#[derive(Clone, Debug)]
pub struct CacheError {
    pub kind: CacheErrorKind,
    pub message: String,
}

/// Fails with `Interrupted` when the extraction was cancelled.
pub fn check_cancelled(cancelled: bool) -> (r: Result<(), CacheError>)
    ensures
        cancelled <==> r is Err,
        r matches Err(e) ==> e.kind == CacheErrorKind::Interrupted && e.message@
            == "Starfield source extraction cancelled"@,
{
    if cancelled {
        Err(CacheError {
            kind: CacheErrorKind::Interrupted,
            message: owned("Starfield source extraction cancelled"),
        })
    } else {
        Ok(())
    }
}

/// The error for a safety limit that an archive exceeds.
pub fn limit_error(limit: &str) -> (r: CacheError)
    ensures
        r.kind == CacheErrorKind::InvalidData,
        r.message@ == "Starfield source "@ + limit@ + " exceeds the configured safety limit"@,
{
    let mut message = owned("Starfield source ");
    message.append(limit);
    message.append(" exceeds the configured safety limit");
    CacheError { kind: CacheErrorKind::InvalidData, message }
}

/// The value of a decimal digit string.
pub open spec fn decimal_value(d: Seq<u8>) -> int
    decreases d.len(),
{
    if d.len() == 0 {
        0
    } else {
        decimal_value(d.drop_last()) * 10 + (d.last() - 48)
    }
}

/// The text after an optional leading `+`.
pub open spec fn unsigned_body(b: Seq<u8>) -> Seq<u8> {
    if b.len() > 0 && b[0] == 43 {
        b.subrange(1, b.len() as int)
    } else {
        b
    }
}

pub open spec fn all_digits(d: Seq<u8>) -> bool {
    forall|i: int| 0 <= i < d.len() ==> is_digit(#[trigger] d[i])
}

/// The digits of an unsigned integer as `str::parse` reads them: an optional
/// `+` and at least one decimal digit.
pub open spec fn unsigned_digits(b: Seq<u8>) -> Option<Seq<u8>> {
    let d = unsigned_body(b);
    if d.len() > 0 && all_digits(d) {
        Some(d)
    } else {
        None
    }
}

/// The unsigned integer that text denotes, if it is at most `max`.
pub open spec fn parse_unsigned(b: Seq<u8>, max: int) -> Option<int> {
    match unsigned_digits(b) {
        Some(d) => if decimal_value(d) <= max {
            Some(decimal_value(d))
        } else {
            None
        },
        None => None,
    }
}

proof fn lemma_decimal_grows(d: Seq<u8>, i: int, j: int)
    requires
        0 <= i <= j <= d.len(),
        forall|k: int| 0 <= k < d.len() ==> is_digit(#[trigger] d[k]),
    ensures
        0 <= decimal_value(d.subrange(0, i)) <= decimal_value(d.subrange(0, j)),
    decreases j - i,
{
    if i < j {
        lemma_decimal_grows(d, i, j - 1);
        assert(d.subrange(0, j).drop_last() =~= d.subrange(0, j - 1));
        lemma_decimal_nonnegative(d.subrange(0, j - 1));
    } else {
        lemma_decimal_nonnegative(d.subrange(0, i));
    }
}

proof fn lemma_decimal_nonnegative(d: Seq<u8>)
    requires
        forall|k: int| 0 <= k < d.len() ==> is_digit(#[trigger] d[k]),
    ensures
        decimal_value(d) >= 0,
    decreases d.len(),
{
    if d.len() > 0 {
        assert forall|k: int| 0 <= k < d.drop_last().len() implies is_digit(#[trigger] d.drop_last()[k]) by {
            assert(d.drop_last()[k] == d[k]);
        }
        lemma_decimal_nonnegative(d.drop_last());
    }
}

/// `str::parse` for an unsigned integer type whose largest value is `max`.
pub fn parse_unsigned_bytes(b: &[u8], max: u64) -> (r: Option<u64>)
    ensures
        r.is_some() == parse_unsigned(b@, max as int).is_some(),
        r matches Some(v) ==> v == parse_unsigned(b@, max as int).unwrap(),
{
    let ghost s = b@;
    let start: usize = if b.len() > 0 && b[0] == 43 {
        1
    } else {
        0
    };
    let ghost d = unsigned_body(s);
    assert(d =~= s.subrange(start as int, s.len() as int));
    if start == b.len() {
        return None;
    }
    let mut value: u128 = 0;
    let mut i = start;
    while i < b.len()
        invariant
            s == b@,
            start <= i <= s.len(),
            d =~= s.subrange(start as int, s.len() as int),
            d == unsigned_body(s),
            forall|k: int| 0 <= k < i - start ==> is_digit(#[trigger] d[k]),
            value == decimal_value(d.subrange(0, i - start)),
            value <= max,
        decreases s.len() - i,
    {
        let c = b[i];
        assert(d[i - start] == c);
        if !(48 <= c && c <= 57) {
            assert(!is_digit(d[i - start]));
            assert(!all_digits(d));
            return None;
        }
        proof {
            assert(d.subrange(0, i - start + 1).drop_last() =~= d.subrange(0, i - start));
        }
        value = value * 10 + (c - 48) as u128;
        i = i + 1;
        assert(decimal_value(d.subrange(0, i - start)) == value);
        if value > max as u128 {
            proof {
                assert forall|k: int| 0 <= k < i - start implies is_digit(#[trigger] d[k]) by {}
                if all_digits(d) {
                    lemma_decimal_grows(d, i - start, d.len() as int);
                    assert(d.subrange(0, d.len() as int) =~= d);
                }
            }
            return None;
        }
    }
    proof {
        assert(d.subrange(0, d.len() as int) =~= d);
    }
    Some(value as u64)
}

/// The end of the line that starts at `i`, without its line ending: `\n`
/// or `\r\n` ends a line.
pub open spec fn line_content_end(b: Seq<u8>, i: int) -> int {
    let e = first_index(b, 10, i);
    if e < b.len() && e > i && b[e - 1] == 13 {
        e - 1
    } else {
        e
    }
}

/// Whether the line at `i` reads `key=...`; its value then spans from after
/// the first `=` to the end of the line.
pub open spec fn line_has_key(b: Seq<u8>, key: Seq<u8>, i: int) -> bool {
    let eq = first_index(b, 61, i);
    eq < line_content_end(b, i) && b.subrange(i, eq) == key
}

/// The span of the value of the first line `key=value` of a marker from
/// position `i` on, with lines as `str::lines` yields them.
pub open spec fn marker_lookup(b: Seq<u8>, key: Seq<u8>, i: int) -> Option<(int, int)>
    decreases b.len() - i,
{
    if i < 0 || i >= b.len() {
        None
    } else if line_has_key(b, key, i) {
        Some((first_index(b, 61, i) + 1, line_content_end(b, i)))
    } else if first_index(b, 10, i) >= b.len() {
        None
    } else {
        proof {
            lemma_first_index_bounds(b, 10, i);
        }
        marker_lookup(b, key, first_index(b, 10, i) + 1)
    }
}

/// Like `marker_lookup`, but only lines whose value is an unsigned integer
/// that fits `usize` count; the value is that integer.
pub open spec fn marker_count_lookup(b: Seq<u8>, key: Seq<u8>, i: int) -> Option<int>
    decreases b.len() - i,
{
    if i < 0 || i >= b.len() {
        None
    } else if line_has_key(b, key, i) && parse_unsigned(
        b.subrange(first_index(b, 61, i) + 1, line_content_end(b, i)),
        usize::MAX as int,
    ) is Some {
        parse_unsigned(
            b.subrange(first_index(b, 61, i) + 1, line_content_end(b, i)),
            usize::MAX as int,
        )
    } else if first_index(b, 10, i) >= b.len() {
        None
    } else {
        proof {
            lemma_first_index_bounds(b, 10, i);
        }
        marker_count_lookup(b, key, first_index(b, 10, i) + 1)
    }
}

pub proof fn lemma_first_index_bounds(b: Seq<u8>, c: u8, i: int)
    requires
        0 <= i <= b.len(),
    ensures
        i <= first_index(b, c, i) <= b.len(),
        first_index(b, c, i) < b.len() ==> b[first_index(b, c, i)] == c,
        forall|k: int| i <= k < first_index(b, c, i) ==> #[trigger] b[k] != c,
    decreases b.len() - i,
{
    if i < b.len() && b[i] != c {
        lemma_first_index_bounds(b, c, i + 1);
    }
}

fn find_from(b: &[u8], c: u8, from: usize) -> (r: usize)
    requires
        from <= b@.len(),
    ensures
        r == first_index(b@, c, from as int),
        from <= r <= b@.len(),
{
    let mut i = from;
    while i < b.len() && b[i] != c
        invariant
            from <= i <= b@.len(),
            first_index(b@, c, i as int) == first_index(b@, c, from as int),
        decreases b@.len() - i,
    {
        i = i + 1;
    }
    i
}

/// One line of a marker.
struct MarkerLine {
    newline: usize,
    end: usize,
    eq: usize,
    key_matches: bool,
}

fn marker_line(b: &[u8], key: &[u8], i: usize) -> (r: MarkerLine)
    requires
        i < b@.len(),
    ensures
        r.newline == first_index(b@, 10, i as int),
        r.end == line_content_end(b@, i as int),
        r.eq == first_index(b@, 61, i as int),
        r.key_matches == line_has_key(b@, key@, i as int),
        i <= r.end <= r.newline <= b@.len(),
{
    let newline = find_from(b, 10, i);
    let end = if newline < b.len() && newline > i && b[newline - 1] == 13 {
        newline - 1
    } else {
        newline
    };
    let eq = find_from(b, 61, i);
    if eq < end {
        let found_key = copy_range(b, i, eq);
        let key_matches = bytes_equal(found_key.as_slice(), key);
        MarkerLine { newline, end, eq, key_matches }
    } else {
        MarkerLine { newline, end, eq, key_matches: false }
    }
}

/// The value of the first `key=value` line of a completion marker.
pub fn marker_value(content: &str, key: &str) -> (r: Option<String>)
    ensures
        r.is_some() == marker_lookup(content.spec_bytes(), key.spec_bytes(), 0).is_some(),
        r matches Some(v) ==> ({
            let (s, e) = marker_lookup(content.spec_bytes(), key.spec_bytes(), 0).unwrap();
            string_bytes(v) == content.spec_bytes().subrange(s, e)
        }),
{
    let b = content.as_bytes();
    let k = key.as_bytes();
    let mut i: usize = 0;
    while i < b.len()
        invariant
            b@ == content.spec_bytes(),
            k@ == key.spec_bytes(),
            0 <= i <= b@.len(),
            marker_lookup(b@, k@, i as int) == marker_lookup(b@, k@, 0),
        decreases b@.len() - i,
    {
        let line = marker_line(b, k, i);
        proof {
            lemma_first_index_bounds(b@, 10, i as int);
            lemma_first_index_bounds(b@, 61, i as int);
        }
        if line.key_matches {
            proof {
                let bb = b@;
                crate::text::lemma_str_valid(content);
                let eq = line.eq as int;
                let end = line.end as int;
                assert(bb[eq] == 61);
                crate::text::lemma_valid_after_ascii(bb, eq + 1);
                let tail = bb.subrange(eq + 1, bb.len() as int);
                if end < bb.len() {
                    assert(tail[end - eq - 1] == bb[end]);
                    assert(bb[end] == 10 || bb[end] == 13);
                }
                crate::text::lemma_cut_at_ascii(tail, end - eq - 1);
                assert(tail.subrange(0, end - eq - 1) =~= bb.subrange(eq + 1, end));
            }
            return Some(crate::text::string_from_valid_range(b, line.eq + 1, line.end));
        }
        if line.newline == b.len() {
            return None;
        }
        i = line.newline + 1;
    }
    None
}

/// The first value of `key` in a completion marker that is an unsigned integer.
pub fn marker_count(content: &str, key: &str) -> (r: Option<usize>)
    ensures
        r.is_some() == marker_count_lookup(content.spec_bytes(), key.spec_bytes(), 0).is_some(),
        r matches Some(v) ==> v == marker_count_lookup(content.spec_bytes(), key.spec_bytes(), 0).unwrap(),
{
    let b = content.as_bytes();
    let k = key.as_bytes();
    let mut i: usize = 0;
    while i < b.len()
        invariant
            b@ == content.spec_bytes(),
            k@ == key.spec_bytes(),
            0 <= i <= b@.len(),
            marker_count_lookup(b@, k@, i as int) == marker_count_lookup(b@, k@, 0),
        decreases b@.len() - i,
    {
        let line = marker_line(b, k, i);
        proof {
            lemma_first_index_bounds(b@, 10, i as int);
            lemma_first_index_bounds(b@, 61, i as int);
        }
        if line.key_matches {
            let value = copy_range(b, line.eq + 1, line.end);
            match parse_unsigned_bytes(value.as_slice(), usize::MAX as u64) {
                Some(n) => {
                    return Some(n as usize);
                },
                None => {},
            }
        }
        if line.newline == b.len() {
            return None;
        }
        i = line.newline + 1;
    }
    None
}

/// The counts recorded by a complete cache directory.
#[derive(Clone, Copy, Debug, PartialEq, Eq, Structural)]
pub struct CacheCounts {
    pub indexed: usize,
    pub excluded: usize,
}

/// Whether a marker describes a complete cache of the archive with the given
/// fingerprint: its schema is the current one, it names the archive, and the
/// number of sources found on disk (`None` when the source directory is
/// missing or could not be counted) equals the recorded count.
pub open spec fn completed_counts(
    content: Seq<u8>,
    fingerprint: Seq<u8>,
    found: Option<usize>,
) -> Option<CacheCounts> {
    match (marker_lookup(content, "schema".spec_bytes(), 0), marker_lookup(
        content,
        "archive".spec_bytes(),
        0,
    )) {
        (Some((s1, e1)), Some((s2, e2))) => if parse_unsigned(content.subrange(s1, e1), u32::MAX as int)
            != Some(STARFIELD_CACHE_VERSION as int) || content.subrange(s2, e2) != fingerprint {
            None
        } else {
            match (found, marker_count_lookup(content, "indexed".spec_bytes(), 0)) {
                (Some(n), Some(indexed)) => if n != indexed {
                    None
                } else {
                    match marker_count_lookup(content, "excluded".spec_bytes(), 0) {
                        Some(excluded) => Some(
                            CacheCounts { indexed: indexed as usize, excluded: excluded as usize },
                        ),
                        None => None,
                    }
                },
                _ => None,
            }
        },
        _ => None,
    }
}

/// The counts of a cache directory that can be reused as it is.
pub fn completed_cache(content: &str, fingerprint: &str, found: Option<usize>) -> (r: Option<
    CacheCounts,
>)
    ensures
        r == completed_counts(content.spec_bytes(), fingerprint.spec_bytes(), found),
{
    let schema = match marker_value(content, "schema") {
        Some(v) => v,
        None => return None,
    };
    let archive = match marker_value(content, "archive") {
        Some(v) => v,
        None => return None,
    };
    let version = parse_unsigned_bytes(schema.as_str().as_bytes(), 4294967295u64);
    if version != Some(1u64) || !bytes_equal(archive.as_str().as_bytes(), fingerprint.as_bytes()) {
        return None;
    }
    let n = match found {
        Some(n) => n,
        None => return None,
    };
    let indexed = match marker_count(content, "indexed") {
        Some(v) => v,
        None => return None,
    };
    if n != indexed {
        return None;
    }
    match marker_count(content, "excluded") {
        Some(excluded) => Some(CacheCounts { indexed, excluded }),
        None => None,
    }
}

/// The components of an archive entry name read as a relative path: the
/// `/`-separated pieces without empty ones, and without `.` except before
/// any other component.
pub open spec fn components_from(b: Seq<u8>, i: int, started: bool) -> Seq<Seq<u8>>
    decreases b.len() - i,
{
    let j = first_index(b, 47, i);
    let piece = b.subrange(i, j);
    let here = if piece.len() == 0 || (piece == seq![46u8] && started) {
        Seq::<Seq<u8>>::empty()
    } else {
        seq![piece]
    };
    if i < 0 || j >= b.len() {
        here
    } else {
        proof {
            lemma_first_index_bounds(b, 47, i);
        }
        here + components_from(b, j + 1, started || here.len() > 0)
    }
}

/// An entry under `Scripts/Source` (in any case) that names a `.psc` file,
/// at most `MAX_SOURCE_DEPTH` components deep and with no `..` component.
pub open spec fn spec_safe_source_path(c: Seq<Seq<u8>>) -> bool {
    &&& c.len() >= 2
    &&& same_ignoring_case(c[0], "scripts".spec_bytes())
    &&& same_ignoring_case(c[1], "source".spec_bytes())
    &&& c.len() <= MAX_SOURCE_DEPTH
    &&& crate::paths::extension(c.last()) matches Some(ext) && same_ignoring_case(
        ext,
        "psc".spec_bytes(),
    )
    &&& forall|k: int| 0 <= k < c.len() ==> #[trigger] c[k] != seq![46u8, 46u8]
}

/// The UTF-8 text of each string.
pub open spec fn texts(v: Seq<String>) -> Seq<Seq<u8>> {
    v.map_values(|s: String| string_bytes(s))
}

fn is_dot_dot(v: &String) -> (r: bool)
    ensures
        r == (string_bytes(*v) == seq![46u8, 46u8]),
{
    let b = v.as_str().as_bytes();
    let r = b.len() == 2 && b[0] == 46 && b[1] == 46;
    proof {
        if r {
            assert(b@ =~= seq![46u8, 46u8]);
        }
        if b@ == seq![46u8, 46u8] {
            assert(b@[0] == 46 && b@[1] == 46);
        }
    }
    r
}

/// The relative path of an archive entry that is a retained source, as its
/// components.
pub fn safe_source_path(name: &str) -> (r: Option<Vec<String>>)
    ensures
        r.is_some() == spec_safe_source_path(components_from(name.spec_bytes(), 0, false)),
        r matches Some(v) ==> texts(v@) == components_from(name.spec_bytes(), 0, false),
{
    let b = name.as_bytes();
    let ghost bb = b@;
    proof {
        crate::text::lemma_str_valid(name);
    }
    let mut out: Vec<String> = Vec::new();
    let mut i: usize = 0;
    let mut done = false;
    while !done
        invariant
            bb == b@,
            bb == name.spec_bytes(),
            valid_utf8(bb),
            0 <= i <= bb.len(),
            i == 0 || bb[i - 1] == 47,
            !done ==> texts(out@) + components_from(bb, i as int, out@.len() > 0) == components_from(
                bb,
                0,
                false,
            ),
            done ==> texts(out@) == components_from(bb, 0, false),
        decreases bb.len() - i + if done {
            0int
        } else {
            1int
        },
    {
        let j = find_from(b, 47, i);
        proof {
            lemma_first_index_bounds(bb, 47, i as int);
        }
        let ghost started = out@.len() > 0;
        let ghost piece = bb.subrange(i as int, j as int);
        let dot = j - i == 1 && b[i] == 46;
        proof {
            if dot {
                assert(piece =~= seq![46u8]);
            }
            if piece == seq![46u8] {
                assert(piece[0] == 46);
            }
        }
        let keep = j > i && !(dot && out.len() > 0);
        let ghost here = if piece.len() == 0 || (piece == seq![46u8] && started) {
            Seq::<Seq<u8>>::empty()
        } else {
            seq![piece]
        };
        let ghost prev = texts(out@);
        if keep {
            proof {
                let tail = if i > 0 {
                    crate::text::lemma_valid_after_ascii(bb, i as int);
                    bb.subrange(i as int, bb.len() as int)
                } else {
                    assert(bb.subrange(0, bb.len() as int) =~= bb);
                    bb
                };
                if j < bb.len() {
                    assert(tail[j - i] == bb[j as int]);
                }
                crate::text::lemma_cut_at_ascii(tail, j - i);
                assert(tail.subrange(0, j - i) =~= piece);
            }
            let text = crate::text::string_from_valid_range(b, i, j);
            out.push(text);
            assert(texts(out@) =~= prev + here);
        } else {
            assert(here =~= Seq::<Seq<u8>>::empty());
            assert(texts(out@) =~= prev + here);
        }
        assert((out@.len() > 0) == (started || here.len() > 0));
        if j == b.len() {
            assert(components_from(bb, i as int, started) == here);
            done = true;
        } else {
            proof {
                let rest = components_from(bb, j + 1, started || here.len() > 0);
                assert(components_from(bb, i as int, started) == here + rest);
                assert(prev + (here + rest) =~= (prev + here) + rest);
            }
            i = j + 1;
        }
    }
    let n = out.len();
    if n < 2 || n > 64 {
        return None;
    }
    let ghost c = texts(out@);
    assert(string_bytes(out@[0]) == c[0]);
    assert(string_bytes(out@[1]) == c[1]);
    if !crate::text::str_equal_ignoring_case(out[0].as_str(), "scripts")
        || !crate::text::str_equal_ignoring_case(out[1].as_str(), "source") {
        return None;
    }
    let last = copy_range(out[n - 1].as_str().as_bytes(), 0, out[n - 1].as_str().as_bytes().len());
    assert(last@ =~= c.last());
    if !crate::paths::has_psc_extension(&last) {
        return None;
    }
    let mut k: usize = 0;
    while k < n
        invariant
            n == out@.len(),
            c == texts(out@),
            c == components_from(name.spec_bytes(), 0, false),
            0 <= k <= n,
            forall|m: int| 0 <= m < k ==> #[trigger] c[m] != seq![46u8, 46u8],
        decreases n - k,
    {
        assert(string_bytes(out@[k as int]) == c[k as int]);
        if is_dot_dot(&out[k]) {
            assert(c[k as int] == seq![46u8, 46u8]);
            assert(!spec_safe_source_path(c));
            return None;
        }
        k = k + 1;
    }
    Some(out)
}

/// Components joined with `/`.
pub open spec fn joined(c: Seq<Seq<u8>>) -> Seq<u8>
    decreases c.len(),
{
    if c.len() == 0 {
        Seq::empty()
    } else if c.len() == 1 {
        c[0]
    } else {
        joined(c.drop_last()) + seq![47u8] + c.last()
    }
}

/// The relative path of the components, joined with `/`.
pub fn join_path(components: &Vec<String>) -> (r: String)
    ensures
        string_bytes(r) == joined(texts(components@)),
{
    let mut out: Vec<u8> = Vec::new();
    let mut i: usize = 0;
    proof {
        assert(texts(components@).subrange(0, 0) =~= Seq::<Seq<u8>>::empty());
        assert(valid_utf8(out@));
    }
    while i < components.len()
        invariant
            0 <= i <= components@.len(),
            out@ == joined(texts(components@).subrange(0, i as int)),
            valid_utf8(out@),
        decreases components@.len() - i,
    {
        let ghost c = texts(components@);
        let ghost before = out@;
        if i > 0 {
            out.push(47);
            proof {
                lemma_ascii_valid(seq![47u8]);
                assert(out@ =~= before + seq![47u8]);
                valid_utf8_concat(before, seq![47u8]);
            }
        }
        let ghost middle = out@;
        let piece = components[i].as_str().as_bytes();
        crate::paths::extend(&mut out, piece);
        proof {
            let s = c.subrange(0, i + 1);
            assert(s.drop_last() =~= c.subrange(0, i as int));
            assert(s.last() == c[i as int]);
            assert(c[i as int] == string_bytes(components@[i as int]));
            assert(piece@ == c[i as int]);
            valid_utf8_concat(middle, piece@);
            if i == 0 {
                assert(out@ =~= s[0]);
            } else {
                assert(out@ =~= joined(s.drop_last()) + seq![47u8] + s.last());
            }
        }
        i = i + 1;
    }
    assert(texts(components@).subrange(0, components@.len() as int) =~= texts(components@));
    crate::text::string_from_valid(out)
}

/// What has been extracted so far.
#[derive(Clone, Copy, Debug, PartialEq, Eq, Structural)]
pub struct ExtractionProgress {
    pub indexed: usize,
    pub excluded: usize,
    pub extracted_bytes: u64,
}

/// What to do with one archive entry.
pub enum EntryPlan {
    /// Not a retained source path: ignore it.
    Skip,
    /// A generated fragment: count it as excluded.
    Exclude,
    /// Extract it to the relative path with these components.
    Extract(Vec<String>),
    /// Stop: a safety limit is exceeded.
    Fail(CacheError),
}

pub open spec fn saturating_add(a: u64, b: u64) -> int {
    if a + b > u64::MAX {
        u64::MAX as int
    } else {
        a + b
    }
}

/// The plan for an archive entry: entries that are not retained source
/// paths are skipped, generated fragments excluded, and the rest extracted
/// unless the source count or a byte limit would be exceeded.
pub open spec fn planned(progress: ExtractionProgress, name: Seq<u8>, size: u64, style: PathStyle, r: EntryPlan) -> bool {
    &&& !spec_safe_source_path(components_from(name, 0, false)) ==> r is Skip
    &&& spec_safe_source_path(components_from(name, 0, false)) ==> ({
            let c = components_from(name, 0, false);
            if crate::paths::spec_is_generated_source(joined(c), style) {
                r is Exclude
            } else if progress.indexed >= MAX_SOURCE_FILES {
                r matches EntryPlan::Fail(e) && e.kind == CacheErrorKind::InvalidData && e.message@
                    == "Starfield source "@ + "retained source count"@
                    + " exceeds the configured safety limit"@
            } else if size > MAX_SOURCE_FILE_BYTES || saturating_add(progress.extracted_bytes, size)
                > MAX_EXTRACTED_BYTES {
                r matches EntryPlan::Fail(e) && e.kind == CacheErrorKind::InvalidData && e.message@
                    == "Starfield source "@ + "extracted source bytes"@
                    + " exceeds the configured safety limit"@
            } else {
                r matches EntryPlan::Extract(v) && texts(v@) == c
            }
        })
}

/// Decides what to do with an archive entry of the given name and declared
/// size.
pub fn plan_entry(progress: &ExtractionProgress, name: &str, size: u64, style: PathStyle) -> (r: EntryPlan)
    ensures
        planned(*progress, name.spec_bytes(), size, style, r),
{
    let components = match safe_source_path(name) {
        Some(c) => c,
        None => return EntryPlan::Skip,
    };
    let relative = join_path(&components);
    if is_generated_source(relative.as_str(), style) {
        return EntryPlan::Exclude;
    }
    if progress.indexed >= MAX_SOURCE_FILES {
        return EntryPlan::Fail(limit_error("retained source count"));
    }
    if size > MAX_SOURCE_FILE_BYTES || progress.extracted_bytes.saturating_add(size)
        > MAX_EXTRACTED_BYTES {
        return EntryPlan::Fail(limit_error("extracted source bytes"));
    }
    EntryPlan::Extract(components)
}

/// Plans the next archive entry and counts it when it is excluded as a
/// generated fragment.
pub fn next_entry(progress: &mut ExtractionProgress, name: &str, size: u64, style: PathStyle) -> (r: EntryPlan)
    requires
        old(progress).excluded < usize::MAX,
    ensures
        planned(*old(progress), name.spec_bytes(), size, style, r),
        final(progress).indexed == old(progress).indexed,
        final(progress).extracted_bytes == old(progress).extracted_bytes,
        final(progress).excluded == old(progress).excluded + if r is Exclude { 1int } else { 0int },
{
    let r = plan_entry(progress, name, size, style);
    if let EntryPlan::Exclude = r {
        progress.excluded = progress.excluded + 1;
    }
    r
}

/// Accounts for an extracted source of which `read` bytes were read and
/// `written` bytes are to be written after UTF-8 repair, or fails on a limit.
pub fn accept_source(progress: &ExtractionProgress, read: u64, written: u64) -> (r: Result<
    ExtractionProgress,
    CacheError,
>)
    requires
        progress.indexed < MAX_SOURCE_FILES,
    ensures
        (read > MAX_SOURCE_FILE_BYTES || saturating_add(progress.extracted_bytes, read)
            > MAX_EXTRACTED_BYTES) ==> (r matches Err(e) && e.kind == CacheErrorKind::InvalidData
            && e.message@ == "Starfield source "@ + "extracted source bytes"@
            + " exceeds the configured safety limit"@),
        !(read > MAX_SOURCE_FILE_BYTES || saturating_add(progress.extracted_bytes, read)
            > MAX_EXTRACTED_BYTES) && (written > MAX_SOURCE_FILE_BYTES || saturating_add(
            progress.extracted_bytes,
            written,
        ) > MAX_EXTRACTED_BYTES) ==> (r matches Err(e) && e.kind == CacheErrorKind::InvalidData
            && e.message@ == "Starfield source "@ + "materialized source bytes"@
            + " exceeds the configured safety limit"@),
        !(read > MAX_SOURCE_FILE_BYTES || saturating_add(progress.extracted_bytes, read)
            > MAX_EXTRACTED_BYTES) && !(written > MAX_SOURCE_FILE_BYTES || saturating_add(
            progress.extracted_bytes,
            written,
        ) > MAX_EXTRACTED_BYTES) ==> r == Ok::<ExtractionProgress, CacheError>(
            ExtractionProgress {
                indexed: (progress.indexed + 1) as usize,
                excluded: progress.excluded,
                extracted_bytes: (progress.extracted_bytes + written) as u64,
            },
        ),
{
    if read > MAX_SOURCE_FILE_BYTES || progress.extracted_bytes.saturating_add(read)
        > MAX_EXTRACTED_BYTES {
        return Err(limit_error("extracted source bytes"));
    }
    if written > MAX_SOURCE_FILE_BYTES || progress.extracted_bytes.saturating_add(written)
        > MAX_EXTRACTED_BYTES {
        return Err(limit_error("materialized source bytes"));
    }
    Ok(
        ExtractionProgress {
            indexed: progress.indexed + 1,
            excluded: progress.excluded,
            extracted_bytes: progress.extracted_bytes + written,
        },
    )
}

} // verus!
