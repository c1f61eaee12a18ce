//! Path and URI text handled by the server: `file:` URIs from the editor,
//! Windows verbatim prefixes, percent-encoding, and the file-name rules that
//! pick Papyrus sources and skip generated fragments.
//!
//! Paths are text here. A file name is the last component, where both `/`
//! and `\` separate components.
use vstd::prelude::*;
use vstd::utf8::*;
use vstd::string::StringSliceAdditionalSpecFns;
use crate::text::{
    all_ascii, copy_range, equal_ignoring_case, is_alpha, is_alpha_byte, is_digit, is_hex,
    is_hex_byte, is_word, is_word_byte, lemma_ascii_valid, lemma_replace_valid,
    lemma_valid_after_ascii, replace_bytes, replaced_bytes, same_ignoring_case, string_bytes,
    string_from_ascii, string_from_utf8, string_from_valid,
};

verus! {

broadcast use vstd::utf8::group_utf8_lib;

/// The path conventions of the platform that a path is meant for.
#[derive(Clone, Copy, Debug, PartialEq, Eq, Structural)]
pub enum PathStyle {
    Unix,
    Windows,
}

/// Value of an ASCII hexadecimal digit.
pub open spec fn hex_value(c: u8) -> int {
    if is_digit(c) {
        c - 48
    } else if 65 <= c <= 70 {
        c - 55
    } else {
        c - 87
    }
}

/// The two bytes after `%` that `u8::from_str_radix(_, 16)` accepts: two hex
/// digits, or a `+` sign and one hex digit.
pub open spec fn escape_valid(a: u8, b: u8) -> bool {
    (is_hex(a) || a == 43) && is_hex(b)
}

pub open spec fn escape_value(a: u8, b: u8) -> int {
    if a == 43 {
        hex_value(b)
    } else {
        hex_value(a) * 16 + hex_value(b)
    }
}

pub open spec fn prepend(p: Seq<u8>, o: Option<Seq<u8>>) -> Option<Seq<u8>> {
    match o {
        Some(r) => Some(p + r),
        None => None,
    }
}

/// The bytes denoted by percent-encoded text, or `None` for a malformed escape.
pub open spec fn percent_decoded(b: Seq<u8>) -> Option<Seq<u8>>
    decreases b.len(),
{
    if b.len() == 0 {
        Some(Seq::empty())
    } else if b[0] == 37 {
        if b.len() >= 3 && escape_valid(b[1], b[2]) {
            prepend(
                seq![escape_value(b[1], b[2]) as u8],
                percent_decoded(b.subrange(3, b.len() as int)),
            )
        } else {
            None
        }
    } else {
        prepend(seq![b[0]], percent_decoded(b.subrange(1, b.len() as int)))
    }
}

fn hex_digit_value(c: u8) -> (r: u8)
    requires
        is_hex(c),
    ensures
        r == hex_value(c),
        r < 16,
{
    if 48 <= c && c <= 57 {
        c - 48
    } else if 65 <= c && c <= 70 {
        c - 55
    } else {
        c - 87
    }
}

/// Percent-decoded bytes of a byte string.
pub fn percent_decode_bytes(bytes: &[u8]) -> (r: Option<Vec<u8>>)
    ensures
        r.is_some() == percent_decoded(bytes@).is_some(),
        r matches Some(v) ==> v@ == percent_decoded(bytes@).unwrap(),
{
    let ghost b = bytes@;
    let mut out: Vec<u8> = Vec::new();
    let mut i: usize = 0;
    proof {
        assert(b.subrange(0, b.len() as int) =~= b);
        if percent_decoded(b) is Some {
            assert(out@ + percent_decoded(b).unwrap() =~= percent_decoded(b).unwrap());
        }
    }
    while i < bytes.len()
        invariant
            b == bytes@,
            0 <= i <= b.len(),
            percent_decoded(b) == prepend(out@, percent_decoded(b.subrange(i as int, b.len() as int))),
        decreases b.len() - i,
    {
        let ghost rest = b.subrange(i as int, b.len() as int);
        assert(rest[0] == b[i as int]);
        if bytes[i] == 37 {
            if bytes.len() - i <= 2 || !((is_hex_byte(bytes[i + 1]) || bytes[i + 1] == 43) && is_hex_byte(bytes[i + 2])) {
                assert(percent_decoded(rest) is None);
                return None;
            }
            assert(rest[1] == b[i + 1]);
            assert(rest[2] == b[i + 2]);
            let value: u8 = if bytes[i + 1] == 43 {
                hex_digit_value(bytes[i + 2])
            } else {
                hex_digit_value(bytes[i + 1]) * 16 + hex_digit_value(bytes[i + 2])
            };
            proof {
                assert(rest.subrange(3, rest.len() as int) =~= b.subrange(i + 3, b.len() as int));
                let tail = percent_decoded(b.subrange(i + 3, b.len() as int));
                assert(percent_decoded(rest) == prepend(seq![value], tail));
                if tail is Some {
                    assert(out@ + (seq![value] + tail.unwrap()) =~= out@.push(value) + tail.unwrap());
                }
            }
            out.push(value);
            i = i + 3;
        } else {
            proof {
                assert(rest.subrange(1, rest.len() as int) =~= b.subrange(i + 1, b.len() as int));
                let tail = percent_decoded(b.subrange(i + 1, b.len() as int));
                if tail is Some {
                    assert(out@ + (seq![b[i as int]] + tail.unwrap()) =~= out@.push(b[i as int])
                        + tail.unwrap());
                }
            }
            out.push(bytes[i]);
            i = i + 1;
        }
    }
    proof {
        assert(b.subrange(b.len() as int, b.len() as int) =~= Seq::<u8>::empty());
        assert(out@ + Seq::<u8>::empty() =~= out@);
    }
    Some(out)
}

/// Percent-decodes text; `None` for a malformed escape or for bytes that are
/// not UTF-8.
pub fn percent_decode(value: &str) -> (r: Option<String>)
    ensures
        r.is_some() == (percent_decoded(value.spec_bytes()) matches Some(d) && valid_utf8(d)),
        r matches Some(s) ==> string_bytes(s) == percent_decoded(value.spec_bytes()).unwrap(),
{
    match percent_decode_bytes(value.as_bytes()) {
        None => None,
        Some(bytes) => string_from_utf8(bytes),
    }
}

/// The index of the first occurrence of a byte at or after `i`, or the end.
pub open spec fn first_index(b: Seq<u8>, c: u8, i: int) -> int
    decreases b.len() - i,
{
    if i < 0 || i >= b.len() {
        b.len() as int
    } else if b[i] == c {
        i
    } else {
        first_index(b, c, i + 1)
    }
}

proof fn lemma_first_index(b: Seq<u8>, c: u8, i: int)
    requires
        0 <= i <= b.len(),
    ensures
        i <= first_index(b, c, i) <= b.len(),
        forall|k: int| i <= k < first_index(b, c, i) ==> #[trigger] b[k] != c,
        first_index(b, c, i) < b.len() ==> b[first_index(b, c, i)] == c,
    decreases b.len() - i,
{
    if i < b.len() && b[i] != c {
        lemma_first_index(b, c, i + 1);
    }
}

fn find_byte(bytes: &[u8], c: u8, from: usize) -> (r: usize)
    requires
        from <= bytes@.len(),
    ensures
        r == first_index(bytes@, c, from as int),
{
    let mut i = from;
    while i < bytes.len() && bytes[i] != c
        invariant
            from <= i <= bytes@.len(),
            first_index(bytes@, c, i as int) == first_index(bytes@, c, from as int),
        decreases bytes@.len() - i,
    {
        i = i + 1;
    }
    i
}

pub open spec fn contains_byte(b: Seq<u8>, c: u8) -> bool {
    exists|i: int| 0 <= i < b.len() && b[i] == c
}

/// The authority and the still-encoded path of a `file:` URI without query or
/// fragment.
pub open spec fn uri_parts(b: Seq<u8>) -> Option<(Seq<u8>, Seq<u8>)> {
    let colon = first_index(b, 58, 0);
    if colon == b.len() {
        None
    } else {
        let scheme = b.subrange(0, colon);
        let rest = b.subrange(colon + 1, b.len() as int);
        if !same_ignoring_case(scheme, "file".spec_bytes()) || contains_byte(rest, 63)
            || contains_byte(rest, 35) {
            None
        } else if rest.len() >= 2 && rest[0] == 47 && rest[1] == 47 {
            let w = rest.subrange(2, rest.len() as int);
            let slash = first_index(w, 47, 0);
            Some((w.subrange(0, slash), w.subrange(slash, w.len() as int)))
        } else {
            Some((Seq::empty(), rest))
        }
    }
}

/// The position after the leading run of a byte.
pub open spec fn skip_leading(b: Seq<u8>, c: u8, i: int) -> int
    decreases b.len() - i,
{
    if 0 <= i < b.len() && b[i] == c {
        skip_leading(b, c, i + 1)
    } else {
        i
    }
}

/// A Windows path that `Path::is_absolute` accepts: a drive with a root
/// (`C:\`) or a path that starts with two backslashes and a name (`\\server`).
pub open spec fn windows_absolute(q: Seq<u8>) -> bool {
    q.len() >= 3 && ((is_alpha(q[0]) && q[1] == 58 && q[2] == 92) || (q[0] == 92 && q[1] == 92
        && q[2] != 92))
}

/// `\C:\..` as it comes from `file:///C:/..`, without the leading backslash.
pub open spec fn drop_drive_slash(q: Seq<u8>) -> Seq<u8> {
    if q.len() >= 3 && q[0] == 92 && q[2] == 58 {
        q.subrange(1, q.len() as int)
    } else {
        q
    }
}

/// The local path that a `file:` URI names on a platform, as UTF-8 bytes.
/// A remote authority gives a UNC path on Windows and no path on Unix; a
/// path that is not absolute gives none.
pub open spec fn file_uri_path(b: Seq<u8>, style: PathStyle) -> Option<Seq<u8>> {
    match uri_parts(b) {
        None => None,
        Some((a, p)) => match (percent_decoded(a), percent_decoded(p)) {
            (Some(ad), Some(pd)) => if !valid_utf8(ad) || !valid_utf8(pd) {
                None
            } else {
                let remote = ad.len() > 0 && !same_ignoring_case(ad, "localhost".spec_bytes());
                match style {
                    PathStyle::Unix => if remote || pd.len() == 0 || pd[0] != 47 {
                        None
                    } else {
                        Some(pd)
                    },
                    PathStyle::Windows => if remote {
                        Some(
                            seq![92u8, 92u8] + ad + seq![92u8] + replace_bytes(
                                pd.subrange(skip_leading(pd, 47, 0), pd.len() as int),
                                47,
                                92,
                            ),
                        )
                    } else {
                        let q = drop_drive_slash(replace_bytes(pd, 47, 92));
                        if windows_absolute(q) {
                            Some(q)
                        } else {
                            None
                        }
                    },
                }
            },
            _ => None,
        },
    }
}

proof fn lemma_skip_leading(b: Seq<u8>, c: u8, i: int)
    requires
        0 <= i <= b.len(),
    ensures
        i <= skip_leading(b, c, i) <= b.len(),
        forall|k: int| i <= k < skip_leading(b, c, i) ==> #[trigger] b[k] == c,
    decreases b.len() - i,
{
    if i < b.len() && b[i] == c {
        lemma_skip_leading(b, c, i + 1);
    }
}

fn skip_leading_from(bytes: &[u8], c: u8, from: usize) -> (r: usize)
    requires
        from <= bytes@.len(),
    ensures
        r == skip_leading(bytes@, c, from as int),
        from <= r <= bytes@.len(),
{
    let mut i = from;
    while i < bytes.len() && bytes[i] == c
        invariant
            from <= i <= bytes@.len(),
            skip_leading(bytes@, c, i as int) == skip_leading(bytes@, c, from as int),
        decreases bytes@.len() - i,
    {
        i = i + 1;
    }
    i
}

fn has_byte(bytes: &[u8], c: u8, from: usize) -> (r: bool)
    requires
        from <= bytes@.len(),
    ensures
        r == contains_byte(bytes@.subrange(from as int, bytes@.len() as int), c),
{
    let i = find_byte(bytes, c, from);
    proof {
        lemma_first_index(bytes@, c, from as int);
        let rest = bytes@.subrange(from as int, bytes@.len() as int);
        if i < bytes.len() {
            assert(rest[i - from] == c);
        } else {
            assert forall|k: int| 0 <= k < rest.len() implies rest[k] != c by {
                assert(rest[k] == bytes@[from + k]);
            }
        }
    }
    i < bytes.len()
}

/// Appends a slice.
pub(crate) fn extend(out: &mut Vec<u8>, bytes: &[u8])
    ensures
        final(out)@ == old(out)@ + bytes@,
{
    let mut i: usize = 0;
    while i < bytes.len()
        invariant
            0 <= i <= bytes@.len(),
            out@ == old(out)@ + bytes@.subrange(0, i as int),
        decreases bytes@.len() - i,
    {
        out.push(bytes[i]);
        i = i + 1;
        assert(out@ =~= old(out)@ + bytes@.subrange(0, i as int));
    }
    assert(bytes@.subrange(0, bytes@.len() as int) =~= bytes@);
}

/// Converts a `file:` URI into a local path for the given platform.
#[verifier::spinoff_prover]
#[verifier::rlimit(40)]
pub fn file_uri_to_path(uri: &str, style: PathStyle) -> (r: Option<String>)
    ensures
        r.is_some() == file_uri_path(uri.spec_bytes(), style).is_some(),
        r matches Some(s) ==> string_bytes(s) == file_uri_path(uri.spec_bytes(), style).unwrap(),
{
    let bytes = uri.as_bytes();
    let ghost b = bytes@;
    let colon = find_byte(bytes, 58, 0);
    proof {
        lemma_first_index(b, 58, 0);
    }
    if colon == bytes.len() {
        return None;
    }
    let scheme = copy_range(bytes, 0, colon);
    if !equal_ignoring_case(scheme.as_slice(), "file".as_bytes()) || has_byte(bytes, 63, colon + 1)
        || has_byte(bytes, 35, colon + 1) {
        return None;
    }
    let ghost rest = b.subrange(colon + 1, b.len() as int);
    let (authority, path) = if bytes.len() - colon > 2 && bytes[colon + 1] == 47 && bytes[colon
        + 2] == 47 {
        let slash = find_byte(bytes, 47, colon + 3);
        proof {
            lemma_first_index(b, 47, colon + 3);
            let w = rest.subrange(2, rest.len() as int);
            lemma_first_index(w, 47, 0);
            assert(w =~= b.subrange(colon + 3, b.len() as int));
            assert forall|k: int| 0 <= k < first_index(w, 47, 0) implies w[k] != 47 by {}
            if first_index(w, 47, 0) + colon + 3 < slash {
                assert(b[first_index(w, 47, 0) + colon + 3] == 47);
            }
            if slash < first_index(w, 47, 0) + colon + 3 {
                assert(w[slash - colon - 3] == 47);
            }
            assert(w.subrange(0, first_index(w, 47, 0)) =~= b.subrange(colon + 3, slash as int));
            assert(w.subrange(first_index(w, 47, 0), w.len() as int) =~= b.subrange(
                slash as int,
                b.len() as int,
            ));
        }
        (copy_range(bytes, colon + 3, slash), copy_range(bytes, slash, bytes.len()))
    } else {
        proof {
            if rest.len() >= 2 && rest[0] == 47 {
                assert(rest[1] == b[colon + 2]);
            }
        }
        (Vec::new(), copy_range(bytes, colon + 1, bytes.len()))
    };
    assert(uri_parts(b) == Some((authority@, path@)));
    let decoded_authority = match percent_decode_bytes(authority.as_slice()) {
        Some(d) => d,
        None => return None,
    };
    let decoded_path = match percent_decode_bytes(path.as_slice()) {
        Some(d) => d,
        None => return None,
    };
    let ghost ad = decoded_authority@;
    let ghost pd = decoded_path@;
    let authority_text = match string_from_utf8(decoded_authority.clone()) {
        Some(s) => s,
        None => return None,
    };
    let path_text = match string_from_utf8(decoded_path.clone()) {
        Some(s) => s,
        None => return None,
    };
    assert(valid_utf8(ad) && valid_utf8(pd));
    let remote = decoded_authority.len() > 0 && !equal_ignoring_case(
        decoded_authority.as_slice(),
        "localhost".as_bytes(),
    );
    match style {
        PathStyle::Unix => {
            if remote || decoded_path.len() == 0 || decoded_path[0] != 47 {
                None
            } else {
                Some(path_text)
            }
        },
        PathStyle::Windows => {
            if remote {
                let start = skip_leading_from(decoded_path.as_slice(), 47, 0);
                let trimmed = copy_range(decoded_path.as_slice(), start, decoded_path.len());
                proof {
                    if start > 0 {
                        lemma_skip_leading(pd, 47, 0);
                        assert(pd[start - 1] == 47);
                        lemma_valid_after_ascii(pd, start as int);
                    } else {
                        assert(trimmed@ =~= pd);
                    }
                    lemma_replace_valid(trimmed@, 47, 92);
                }
                let replaced = replaced_bytes(trimmed.as_slice(), 47, 92);
                let mut out: Vec<u8> = Vec::new();
                out.push(92);
                out.push(92);
                extend(&mut out, decoded_authority.as_slice());
                out.push(92);
                extend(&mut out, replaced.as_slice());
                proof {
                    let prefix = seq![92u8, 92u8];
                    let sep = seq![92u8];
                    lemma_ascii_valid(prefix);
                    lemma_ascii_valid(sep);
                    assert(out@ =~= prefix + ad + sep + replaced@);
                    valid_utf8_concat(prefix, ad);
                    valid_utf8_concat(prefix + ad, sep);
                    valid_utf8_concat(prefix + ad + sep, replaced@);
                }
                Some(string_from_valid(out))
            } else {
                proof {
                    lemma_replace_valid(pd, 47, 92);
                }
                let replaced = replaced_bytes(decoded_path.as_slice(), 47, 92);
                let q = if replaced.len() >= 3 && replaced[0] == 92 && replaced[2] == 58 {
                    proof {
                        lemma_valid_after_ascii(replaced@, 1);
                    }
                    copy_range(replaced.as_slice(), 1, replaced.len())
                } else {
                    replaced
                };
                if q.len() >= 3 && ((is_alpha_byte(q[0]) && q[1] == 58 && q[2] == 92) || (q[0]
                    == 92 && q[1] == 92 && q[2] != 92)) {
                    Some(string_from_valid(q))
                } else {
                    None
                }
            }
        },
    }
}

/// The text with a Windows verbatim prefix removed: `\\?\UNC\server\share`
/// becomes `\\server\share` and `\\?\C:\x` becomes `C:\x`.
pub open spec fn normalized_windows_path(b: Seq<u8>) -> Seq<u8> {
    if b.len() >= 8 && b.subrange(0, 8) == seq![92u8, 92u8, 63u8, 92u8, 85u8, 78u8, 67u8, 92u8] {
        seq![92u8, 92u8] + b.subrange(8, b.len() as int)
    } else if b.len() >= 4 && b.subrange(0, 4) == seq![92u8, 92u8, 63u8, 92u8] {
        b.subrange(4, b.len() as int)
    } else {
        b
    }
}

pub fn normalize_windows_path(path: &str) -> (r: String)
    ensures
        string_bytes(r) == normalized_windows_path(path.spec_bytes()),
{
    let bytes = path.as_bytes();
    let ghost b = bytes@;
    let n = bytes.len();
    let verbatim = n >= 4 && bytes[0] == 92 && bytes[1] == 92 && bytes[2] == 63 && bytes[3] == 92;
    let unc = verbatim && n >= 8 && bytes[4] == 85 && bytes[5] == 78 && bytes[6] == 67 && bytes[7]
        == 92;
    proof {
        if n >= 8 {
            if unc {
                assert(b.subrange(0, 8) =~= seq![92u8, 92u8, 63u8, 92u8, 85u8, 78u8, 67u8, 92u8]);
            } else if b.subrange(0, 8) == seq![92u8, 92u8, 63u8, 92u8, 85u8, 78u8, 67u8, 92u8] {
                assert(b[0] == b.subrange(0, 8)[0]);
                assert(b[1] == b.subrange(0, 8)[1]);
                assert(b[2] == b.subrange(0, 8)[2]);
                assert(b[3] == b.subrange(0, 8)[3]);
                assert(b[4] == b.subrange(0, 8)[4]);
                assert(b[5] == b.subrange(0, 8)[5]);
                assert(b[6] == b.subrange(0, 8)[6]);
                assert(b[7] == b.subrange(0, 8)[7]);
            }
        }
        if n >= 4 {
            if verbatim {
                assert(b.subrange(0, 4) =~= seq![92u8, 92u8, 63u8, 92u8]);
            } else if b.subrange(0, 4) == seq![92u8, 92u8, 63u8, 92u8] {
                assert(b[0] == b.subrange(0, 4)[0]);
                assert(b[1] == b.subrange(0, 4)[1]);
                assert(b[2] == b.subrange(0, 4)[2]);
                assert(b[3] == b.subrange(0, 4)[3]);
            }
        }
    }
    if unc {
        proof {
            lemma_valid_after_ascii(b, 8);
            lemma_ascii_valid(seq![92u8, 92u8]);
        }
        let mut out: Vec<u8> = Vec::new();
        out.push(92);
        out.push(92);
        let tail = copy_range(bytes, 8, n);
        extend(&mut out, tail.as_slice());
        proof {
            assert(out@ =~= seq![92u8, 92u8] + b.subrange(8, b.len() as int));
            valid_utf8_concat(seq![92u8, 92u8], b.subrange(8, b.len() as int));
        }
        string_from_valid(out)
    } else if verbatim {
        proof {
            lemma_valid_after_ascii(b, 4);
        }
        string_from_valid(copy_range(bytes, 4, n))
    } else {
        proof {
            assert(b.subrange(0, b.len() as int) =~= b);
        }
        string_from_valid(copy_range(bytes, 0, n))
    }
}

/// Bytes that a `file:` URI path keeps as they are.
pub open spec fn is_unreserved_path_byte(b: u8) -> bool {
    is_alpha(b) || is_digit(b) || b == 47 || b == 58 || b == 45 || b == 95 || b == 46 || b == 126
}

/// An uppercase hexadecimal digit.
pub open spec fn hex_digit(n: int) -> u8 {
    if n < 10 {
        (48 + n) as u8
    } else {
        (55 + n) as u8
    }
}

/// One byte of a path as it appears in a URI: itself, or `%XX`.
pub open spec fn encode_path_byte(b: u8) -> Seq<u8> {
    if is_unreserved_path_byte(b) {
        seq![b]
    } else {
        seq![37u8, hex_digit((b / 16) as int), hex_digit((b % 16) as int)]
    }
}

pub open spec fn percent_encoded(b: Seq<u8>) -> Seq<u8>
    decreases b.len(),
{
    if b.len() == 0 {
        Seq::empty()
    } else {
        percent_encoded(b.drop_last()) + encode_path_byte(b.last())
    }
}

fn hex_digit_byte(n: u8) -> (r: u8)
    requires
        n < 16,
    ensures
        r == hex_digit(n as int),
        r < 128,
{
    if n < 10 {
        48 + n
    } else {
        55 + n
    }
}

/// Percent-encodes every byte of a path except letters, digits and `/:-_.~`.
pub fn percent_encode_path(path: &str) -> (r: String)
    ensures
        string_bytes(r) == percent_encoded(path.spec_bytes()),
{
    let bytes = path.as_bytes();
    let ghost b = bytes@;
    let mut out: Vec<u8> = Vec::new();
    let mut i: usize = 0;
    proof {
        assert(b.subrange(0, b.len() as int) =~= b);
        if percent_decoded(b) is Some {
            assert(out@ + percent_decoded(b).unwrap() =~= percent_decoded(b).unwrap());
        }
    }
    while i < bytes.len()
        invariant
            b == bytes@,
            0 <= i <= b.len(),
            out@ == percent_encoded(b.subrange(0, i as int)),
            all_ascii(out@),
        decreases b.len() - i,
    {
        let c = bytes[i];
        proof {
            assert(b.subrange(0, i + 1).drop_last() =~= b.subrange(0, i as int));
            assert(b.subrange(0, i + 1).last() == c);
        }
        if is_alpha_byte(c) || (48 <= c && c <= 57) || c == 47 || c == 58 || c == 45 || c == 95
            || c == 46 || c == 126 {
            out.push(c);
        } else {
            out.push(37);
            out.push(hex_digit_byte(c / 16));
            out.push(hex_digit_byte(c % 16));
        }
        i = i + 1;
        assert(out@ =~= percent_encoded(b.subrange(0, i as int)));
    }
    assert(b.subrange(0, b.len() as int) =~= b);
    string_from_ascii(out)
}

proof fn lemma_percent_encoded_concat(a: Seq<u8>, b: Seq<u8>)
    ensures
        percent_encoded(a + b) == percent_encoded(a) + percent_encoded(b),
    decreases b.len(),
{
    if b.len() == 0 {
        assert(a + b =~= a);
        assert(percent_encoded(a) + percent_encoded(b) =~= percent_encoded(a));
    } else {
        lemma_percent_encoded_concat(a, b.drop_last());
        assert((a + b).drop_last() =~= a + b.drop_last());
        assert((a + b).last() == b.last());
        assert(percent_encoded(a) + percent_encoded(b) =~= percent_encoded(a) + percent_encoded(b.drop_last())
            + encode_path_byte(b.last()));
    }
}

proof fn lemma_decode_encoded_byte(c: u8, rest: Seq<u8>)
    ensures
        percent_decoded(encode_path_byte(c) + rest) == prepend(seq![c], percent_decoded(rest)),
{
    let e = encode_path_byte(c) + rest;
    if is_unreserved_path_byte(c) {
        assert(e[0] == c);
        assert(e.subrange(1, e.len() as int) =~= rest);
    } else {
        let hi = (c / 16) as int;
        let lo = (c % 16) as int;
        assert(e[0] == 37u8);
        assert(e[1] == hex_digit(hi));
        assert(e[2] == hex_digit(lo));
        assert(e.subrange(3, e.len() as int) =~= rest);
        assert(is_hex(hex_digit(hi)) && hex_value(hex_digit(hi)) == hi);
        assert(is_hex(hex_digit(lo)) && hex_value(hex_digit(lo)) == lo);
        assert(escape_value(e[1], e[2]) == c);
    }
}

/// Decoding what `percent_encode_path` encodes gives the bytes back: every
/// escape it writes is well formed and stands for the byte it replaced.
pub proof fn law_percent_round_trip(b: Seq<u8>)
    ensures
        percent_decoded(percent_encoded(b)) == Some(b),
    decreases b.len(),
{
    if b.len() == 0 {
    } else {
        let head = seq![b[0]];
        let tail = b.subrange(1, b.len() as int);
        assert(head + tail =~= b);
        lemma_percent_encoded_concat(head, tail);
        assert(head.drop_last() =~= Seq::<u8>::empty());
        assert(percent_encoded(Seq::<u8>::empty()) =~= Seq::<u8>::empty());
        assert(head.last() == b[0]);
        assert(percent_encoded(head) == percent_encoded(head.drop_last()) + encode_path_byte(head.last()));
        assert(percent_encoded(head) =~= encode_path_byte(b[0]));
        law_percent_round_trip(tail);
        lemma_decode_encoded_byte(b[0], percent_encoded(tail));
    }
}


/// A separator of the path style: `/`, and on Windows `\` too.
pub open spec fn is_separator(b: u8, style: PathStyle) -> bool {
    b == 47 || (style == PathStyle::Windows && b == 92)
}

fn separator_byte(b: u8, style: PathStyle) -> (r: bool)
    ensures
        r == is_separator(b, style),
{
    b == 47 || (style == PathStyle::Windows && b == 92)
}

/// The end of the last component: the text before any trailing separators.
pub open spec fn trailing_end(b: Seq<u8>, style: PathStyle, i: int) -> int
    decreases i,
{
    if 0 < i <= b.len() && is_separator(b[i - 1], style) {
        trailing_end(b, style, i - 1)
    } else {
        i
    }
}

/// The start of the component that ends at `i`.
pub open spec fn component_start(b: Seq<u8>, style: PathStyle, i: int) -> int
    decreases i,
{
    if 0 < i <= b.len() && !is_separator(b[i - 1], style) {
        component_start(b, style, i - 1)
    } else {
        i
    }
}

/// The last component of a path, if it names a file (not `.` or `..`).
pub open spec fn file_name(b: Seq<u8>, style: PathStyle) -> Option<Seq<u8>> {
    let end = trailing_end(b, style, b.len() as int);
    let name = b.subrange(component_start(b, style, end), end);
    if name.len() == 0 || name == seq![46u8] || name == seq![46u8, 46u8] {
        None
    } else {
        Some(name)
    }
}

/// The index of the last `.` before `i`, or -1.
pub open spec fn last_dot(name: Seq<u8>, i: int) -> int
    decreases i,
{
    if i <= 0 || i > name.len() {
        -1
    } else if name[i - 1] == 46 {
        i - 1
    } else {
        last_dot(name, i - 1)
    }
}

/// The extension of a file name: the text after its last dot, unless that
/// dot starts the name.
pub open spec fn extension(name: Seq<u8>) -> Option<Seq<u8>> {
    let d = last_dot(name, name.len() as int);
    if d > 0 {
        Some(name.subrange(d + 1, name.len() as int))
    } else {
        None
    }
}

/// A file name without its extension.
pub open spec fn stem(name: Seq<u8>) -> Seq<u8> {
    let d = last_dot(name, name.len() as int);
    if d > 0 {
        name.subrange(0, d)
    } else {
        name
    }
}

/// A path whose file name has the extension `psc`, in any case.
pub open spec fn spec_is_papyrus_file(b: Seq<u8>) -> bool {
    file_name(b, PathStyle::Windows) matches Some(name) && extension(name) matches Some(ext) && same_ignoring_case(
        ext,
        "psc".spec_bytes(),
    )
}

proof fn lemma_trailing_end(b: Seq<u8>, style: PathStyle, i: int)
    requires
        0 <= i <= b.len(),
    ensures
        0 <= trailing_end(b, style, i) <= i,
    decreases i,
{
    if 0 < i && is_separator(b[i - 1], style) {
        lemma_trailing_end(b, style, i - 1);
    }
}

proof fn lemma_component_start(b: Seq<u8>, style: PathStyle, i: int)
    requires
        0 <= i <= b.len(),
    ensures
        0 <= component_start(b, style, i) <= i,
        forall|k: int| component_start(b, style, i) <= k < i ==> !is_separator(#[trigger] b[k], style),
    decreases i,
{
    if 0 < i && !is_separator(b[i - 1], style) {
        lemma_component_start(b, style, i - 1);
    }
}

proof fn lemma_last_dot(name: Seq<u8>, i: int)
    requires
        0 <= i <= name.len(),
    ensures
        -1 <= last_dot(name, i) < i,
        last_dot(name, i) >= 0 ==> name[last_dot(name, i)] == 46,
    decreases i,
{
    if i > 0 && name[i - 1] != 46 {
        lemma_last_dot(name, i - 1);
    }
}

/// The last component of a path, as a copy.
fn file_name_of(bytes: &[u8], style: PathStyle) -> (r: Option<Vec<u8>>)
    ensures
        r.is_some() == file_name(bytes@, style).is_some(),
        r matches Some(v) ==> v@ == file_name(bytes@, style).unwrap(),
{
    let ghost b = bytes@;
    let mut end = bytes.len();
    while end > 0 && separator_byte(bytes[end - 1], style)
        invariant
            end <= b.len(),
            b == bytes@,
            trailing_end(b, style, end as int) == trailing_end(b, style, b.len() as int),
        decreases end,
    {
        end = end - 1;
    }
    let mut start = end;
    while start > 0 && !separator_byte(bytes[start - 1], style)
        invariant
            start <= end <= b.len(),
            b == bytes@,
            component_start(b, style, start as int) == component_start(b, style, end as int),
        decreases start,
    {
        start = start - 1;
    }
    let name = copy_range(bytes, start, end);
    let n = name.len();
    if n == 0 || (n == 1 && name[0] == 46) || (n == 2 && name[0] == 46 && name[1] == 46) {
        proof {
            if n == 1 {
                assert(name@ =~= seq![46u8]);
            }
            if n == 2 {
                assert(name@ =~= seq![46u8, 46u8]);
            }
        }
        return None;
    }
    proof {
        if name@ == seq![46u8] {
            assert(name@[0] == 46);
        }
        if name@ == seq![46u8, 46u8] {
            assert(name@[0] == 46 && name@[1] == 46);
        }
    }
    Some(name)
}

fn last_dot_of(name: &Vec<u8>) -> (r: Option<usize>)
    ensures
        match r {
            Some(d) => last_dot(name@, name@.len() as int) == d,
            None => last_dot(name@, name@.len() as int) == -1,
        },
        r matches Some(d) ==> d < name@.len(),
{
    let mut i = name.len();
    while i > 0 && name[i - 1] != 46
        invariant
            i <= name@.len(),
            last_dot(name@, i as int) == last_dot(name@, name@.len() as int),
        decreases i,
    {
        i = i - 1;
    }
    if i == 0 {
        None
    } else {
        Some(i - 1)
    }
}

/// Whether a file name has the extension `psc`, in any case.
pub fn has_psc_extension(name: &Vec<u8>) -> (r: bool)
    ensures
        r == (extension(name@) matches Some(ext) && same_ignoring_case(ext, "psc".spec_bytes())),
{
    match last_dot_of(name) {
        Some(d) => {
            if d == 0 {
                return false;
            }
            let n = name.len();
            assert(d < n);
            let ext = copy_range(name.as_slice(), d + 1, n);
            equal_ignoring_case(ext.as_slice(), "psc".as_bytes())
        },
        None => false,
    }
}

/// Whether the path names a Papyrus source file (`.psc`, in any case).
pub fn is_papyrus_file(path: &str) -> (r: bool)
    ensures
        r == spec_is_papyrus_file(path.spec_bytes()),
{
    match file_name_of(path.as_bytes(), PathStyle::Windows) {
        None => false,
        Some(name) => has_psc_extension(&name),
    }
}

/// A component equal to `fragments`, in any case.
pub open spec fn has_fragments_component(b: Seq<u8>, style: PathStyle) -> bool {
    exists|s: int|
        0 <= s && s + 9 <= b.len() && (s == 0 || is_separator(b[s - 1], style)) && (s + 9 == b.len()
            || is_separator(b[s + 9], style)) && same_ignoring_case(
            #[trigger] b.subrange(s, s + 9),
            "fragments".spec_bytes(),
        )
}

/// Text that starts with a prefix, compared without case.
pub open spec fn starts_with_ignoring_case(b: Seq<u8>, prefix: Seq<u8>) -> bool {
    b.len() >= prefix.len() && same_ignoring_case(b.subrange(0, prefix.len() as int), prefix)
}

/// The stem of the file name, or empty text when the path has none.
pub open spec fn file_stem(b: Seq<u8>, style: PathStyle) -> Seq<u8> {
    match file_name(b, style) {
        Some(name) => stem(name),
        None => Seq::empty(),
    }
}

/// An installed source that the game generated: under a `Fragments`
/// directory, or named `QF_`, `PF_`, `TIF_` or `SF_` followed by anything.
pub open spec fn spec_is_generated_source(b: Seq<u8>, style: PathStyle) -> bool {
    has_fragments_component(b, style) || starts_with_ignoring_case(file_stem(b, style), "QF_".spec_bytes())
        || starts_with_ignoring_case(file_stem(b, style), "PF_".spec_bytes()) || starts_with_ignoring_case(
        file_stem(b, style),
        "TIF_".spec_bytes(),
    ) || starts_with_ignoring_case(file_stem(b, style), "SF_".spec_bytes())
}

fn starts_with_prefix(b: &Vec<u8>, prefix: &str) -> (r: bool)
    ensures
        r == starts_with_ignoring_case(b@, prefix.spec_bytes()),
{
    let p = prefix.as_bytes();
    if b.len() < p.len() {
        return false;
    }
    let head = copy_range(b.as_slice(), 0, p.len());
    equal_ignoring_case(head.as_slice(), p)
}

fn fragments_component(bytes: &[u8], style: PathStyle) -> (r: bool)
    ensures
        r == has_fragments_component(bytes@, style),
{
    let ghost b = bytes@;
    let n = bytes.len();
    if n < 9 {
        return false;
    }
    let mut s: usize = 0;
    while s <= n - 9
        invariant
            n == b.len(),
            b == bytes@,
            n >= 9,
            s <= n - 8,
            forall|t: int|
                0 <= t < s ==> !((t == 0 || is_separator(b[t - 1], style)) && (t + 9 == b.len()
                    || is_separator(b[t + 9], style)) && same_ignoring_case(
                    #[trigger] b.subrange(t, t + 9),
                    "fragments".spec_bytes(),
                )),
        decreases n - s,
    {
        let left = s == 0 || separator_byte(bytes[s - 1], style);
        let right = s + 9 == n || separator_byte(bytes[s + 9], style);
        if left && right {
            let piece = copy_range(bytes, s, s + 9);
            if equal_ignoring_case(piece.as_slice(), "fragments".as_bytes()) {
                return true;
            }
        }
        s = s + 1;
    }
    false
}

/// Whether an installed source path is a generated gameplay fragment, its
/// components split as the path style splits them.
///
/// Project sources are never passed through this policy; it applies only to
/// automatically discovered SDK and Creation Kit inputs.
pub fn is_generated_source(path: &str, style: PathStyle) -> (r: bool)
    ensures
        r == spec_is_generated_source(path.spec_bytes(), style),
{
    let bytes = path.as_bytes();
    if fragments_component(bytes, style) {
        return true;
    }
    let stem_bytes: Vec<u8> = match file_name_of(bytes, style) {
        None => Vec::new(),
        Some(name) => match last_dot_of(&name) {
            Some(d) => {
                if d > 0 {
                    copy_range(name.as_slice(), 0, d)
                } else {
                    name
                }
            },
            None => name,
        },
    };
    proof {
        if file_name(bytes@, style) is None {
            assert(stem_bytes@ =~= Seq::<u8>::empty());
        }
    }
    starts_with_prefix(&stem_bytes, "QF_") || starts_with_prefix(&stem_bytes, "PF_")
        || starts_with_prefix(&stem_bytes, "TIF_") || starts_with_prefix(&stem_bytes, "SF_")
}

/// The path as a URI shows it: Windows extended prefixes removed, every
/// `\\` made `/`.
pub open spec fn uri_path_text(path: Seq<u8>) -> Seq<u8> {
    crate::text::replace_bytes(normalized_windows_path(path), 92, 47)
}

/// The `file:` URI of an absolute path: `file:` before a UNC path,
/// `file://` before a rooted one, `file:///` before a drive path, then the
/// path percent-encoded.
pub open spec fn file_uri_text(path: Seq<u8>) -> Seq<u8> {
    let d = uri_path_text(path);
    let prefix = if d.len() >= 2 && d[0] == 47 && d[1] == 47 {
        "file:".spec_bytes()
    } else if d.len() >= 1 && d[0] == 47 {
        "file://".spec_bytes()
    } else {
        "file:///".spec_bytes()
    };
    prefix + percent_encoded(d)
}

/// The `file:` URI text of an absolute path (`path_to_file_uri_lexical`).
pub fn path_to_file_uri_lexical(path: &str) -> (r: String)
    ensures
        string_bytes(r) == file_uri_text(path.spec_bytes()),
{
    let normalized = normalize_windows_path(path);
    let text = normalized.as_str();
    let bytes = text.as_bytes();
    proof {
        crate::text::lemma_str_valid(text);
        crate::text::lemma_replace_valid(bytes@, 92, 47);
    }
    let replaced = crate::text::replaced_bytes(bytes, 92, 47);
    let display = crate::text::string_from_valid(replaced);
    let d = display.as_str().as_bytes();
    let mut uri = if d.len() >= 2 && d[0] == 47 && d[1] == 47 {
        crate::text::owned("file:")
    } else if d.len() >= 1 && d[0] == 47 {
        crate::text::owned("file://")
    } else {
        crate::text::owned("file:///")
    };
    let encoded = percent_encode_path(display.as_str());
    crate::text::append_text(&mut uri, encoded.as_str());
    uri
}

} // verus!
