//! Byte-level text primitives shared by the Papyrus analyses.
//!
//! Papyrus keywords, identifiers and delimiters are ASCII, so every analysis
//! works on the UTF-8 bytes of the source and only the ASCII subset is
//! interpreted.
use vstd::prelude::*;
use vstd::utf8::*;
use vstd::string::StringSliceAdditionalSpecFns;

verus! {

broadcast use vstd::utf8::group_utf8_lib;

/// ASCII letter.
pub open spec fn is_alpha(b: u8) -> bool {
    (65 <= b && b <= 90) || (97 <= b && b <= 122)
}

/// ASCII decimal digit.
pub open spec fn is_digit(b: u8) -> bool {
    48 <= b && b <= 57
}

/// ASCII hexadecimal digit.
pub open spec fn is_hex(b: u8) -> bool {
    is_digit(b) || (65 <= b && b <= 70) || (97 <= b && b <= 102)
}

/// Byte that may continue a Papyrus identifier.
pub open spec fn is_word(b: u8) -> bool {
    is_alpha(b) || is_digit(b) || b == 95
}

/// Byte that may start a Papyrus identifier.
pub open spec fn is_word_start(b: u8) -> bool {
    is_alpha(b) || b == 95
}

/// ASCII lowercase mapping of one byte.
pub open spec fn lower(b: u8) -> u8 {
    if 65 <= b && b <= 90 {
        (b + 32) as u8
    } else {
        b
    }
}

/// ASCII lowercase mapping of a byte sequence.
pub open spec fn lower_seq(s: Seq<u8>) -> Seq<u8> {
    Seq::new(s.len(), |i: int| lower(s[i]))
}

/// Equality after ASCII case folding.
pub open spec fn same_ignoring_case(a: Seq<u8>, b: Seq<u8>) -> bool {
    a.len() == b.len() && forall|i: int| 0 <= i < a.len() ==> lower(#[trigger] a[i]) == lower(b[i])
}

/// UTF-8 bytes of an owned string.
pub open spec fn string_bytes(s: String) -> Seq<u8> {
    encode_utf8(s@)
}

pub fn is_alpha_byte(b: u8) -> (r: bool)
    ensures
        r == is_alpha(b),
{
    (65 <= b && b <= 90) || (97 <= b && b <= 122)
}

pub fn is_digit_byte(b: u8) -> (r: bool)
    ensures
        r == is_digit(b),
{
    48 <= b && b <= 57
}

pub fn is_hex_byte(b: u8) -> (r: bool)
    ensures
        r == is_hex(b),
{
    is_digit_byte(b) || (65 <= b && b <= 70) || (97 <= b && b <= 102)
}

pub fn is_word_byte(b: u8) -> (r: bool)
    ensures
        r == is_word(b),
{
    is_alpha_byte(b) || is_digit_byte(b) || b == 95
}

pub fn lower_byte(b: u8) -> (r: u8)
    ensures
        r == lower(b),
{
    if 65 <= b && b <= 90 {
        b + 32
    } else {
        b
    }
}

/// Exact byte equality.
pub fn bytes_equal(a: &[u8], b: &[u8]) -> (r: bool)
    ensures
        r == (a@ == b@),
{
    if a.len() != b.len() {
        return false;
    }
    let mut i: usize = 0;
    while i < a.len()
        invariant
            a@.len() == b@.len(),
            0 <= i <= a@.len(),
            forall|j: int| 0 <= j < i ==> a@[j] == b@[j],
        decreases a@.len() - i,
    {
        if a[i] != b[i] {
            return false;
        }
        i = i + 1;
    }
    assert(a@ =~= b@);
    true
}

/// Equality after ASCII case folding.
pub fn equal_ignoring_case(a: &[u8], b: &[u8]) -> (r: bool)
    ensures
        r == same_ignoring_case(a@, b@),
{
    if a.len() != b.len() {
        return false;
    }
    let mut i: usize = 0;
    while i < a.len()
        invariant
            a@.len() == b@.len(),
            0 <= i <= a@.len(),
            forall|j: int| 0 <= j < i ==> lower(a@[j]) == lower(b@[j]),
        decreases a@.len() - i,
    {
        if lower_byte(a[i]) != lower_byte(b[i]) {
            return false;
        }
        i = i + 1;
    }
    true
}

/// `str::eq_ignore_ascii_case` on the UTF-8 bytes of two strings.
pub fn str_equal_ignoring_case(a: &str, b: &str) -> (r: bool)
    ensures
        r == same_ignoring_case(a.spec_bytes(), b.spec_bytes()),
{
    equal_ignoring_case(a.as_bytes(), b.as_bytes())
}

/// ASCII-lowercased copy of a byte range.
pub fn lowercase_range(a: &[u8], start: usize, end: usize) -> (r: Vec<u8>)
    requires
        start <= end <= a@.len(),
    ensures
        r@ == lower_seq(a@.subrange(start as int, end as int)),
{
    let mut r: Vec<u8> = Vec::new();
    let mut i = start;
    while i < end
        invariant
            start <= i <= end <= a@.len(),
            r@ =~= lower_seq(a@.subrange(start as int, i as int)),
        decreases end - i,
    {
        r.push(lower_byte(a[i]));
        i = i + 1;
    }
    r
}

/// Copy of a byte range.
pub fn copy_range(a: &[u8], start: usize, end: usize) -> (r: Vec<u8>)
    requires
        start <= end <= a@.len(),
    ensures
        r@ == a@.subrange(start as int, end as int),
{
    let mut r: Vec<u8> = Vec::new();
    let mut i = start;
    while i < end
        invariant
            start <= i <= end <= a@.len(),
            r@ =~= a@.subrange(start as int, i as int),
        decreases end - i,
    {
        r.push(a[i]);
        i = i + 1;
    }
    r
}

/// `String::from_utf8`: succeeds exactly on valid UTF-8, and the string then
/// consists of those bytes.
#[verifier::external_body]
pub(crate) fn string_from_utf8(bytes: Vec<u8>) -> (r: Option<String>)
    ensures
        r.is_some() == valid_utf8(bytes@),
        r matches Some(s) ==> string_bytes(s) == bytes@,
{
    String::from_utf8(bytes).ok()
}

/// A byte position at which a valid UTF-8 text may be cut: its end, or an
/// ASCII byte.
pub open spec fn ascii_cut(bytes: Seq<u8>, i: int) -> bool {
    i == bytes.len() || (0 <= i < bytes.len() && bytes[i] < 128)
}

/// Cutting valid UTF-8 at ASCII bytes leaves valid UTF-8.
pub proof fn lemma_ascii_cut_valid(bytes: Seq<u8>, i: int, j: int)
    requires
        valid_utf8(bytes),
        0 <= i <= j <= bytes.len(),
        ascii_cut(bytes, i),
        ascii_cut(bytes, j),
    ensures
        valid_utf8(bytes.subrange(i, j)),
{
    is_char_boundary_start_end_of_seq(bytes);
    if i < bytes.len() {
        is_char_boundary_iff_not_is_continuation_byte(bytes, i);
    }
    valid_utf8_split(bytes, i);
    let tail = bytes.subrange(i, bytes.len() as int);
    is_char_boundary_start_end_of_seq(tail);
    if j < bytes.len() {
        assert(tail[j - i] == bytes[j]);
        is_char_boundary_iff_not_is_continuation_byte(tail, j - i);
    }
    valid_utf8_split(tail, j - i);
    assert(tail.subrange(0, j - i) =~= bytes.subrange(i, j));
}

/// The owned string made of a range of valid UTF-8 bytes cut at ASCII bytes.
pub fn string_from_range(bytes: &[u8], start: usize, end: usize) -> (r: String)
    requires
        valid_utf8(bytes@),
        start <= end <= bytes@.len(),
        ascii_cut(bytes@, start as int),
        ascii_cut(bytes@, end as int),
    ensures
        string_bytes(r) == bytes@.subrange(start as int, end as int),
{
    proof {
        lemma_ascii_cut_valid(bytes@, start as int, end as int);
    }
    let copy = copy_range(bytes, start, end);
    match string_from_utf8(copy) {
        Some(s) => s,
        None => {
            assert(false);
            String::new()
        },
    }
}

/// The owned string made of valid UTF-8 bytes.
pub fn string_from_valid(bytes: Vec<u8>) -> (r: String)
    requires
        valid_utf8(bytes@),
    ensures
        string_bytes(r) == bytes@,
{
    match string_from_utf8(bytes) {
        Some(s) => s,
        None => {
            assert(false);
            String::new()
        },
    }
}

/// A string literal or other `&str` converted into an owned string.
pub fn owned(s: &str) -> (r: String)
    ensures
        r@ == s@,
        string_bytes(r) == s.spec_bytes(),
{
    s.to_owned()
}

} // verus!

verus! {

/// A byte sequence of ASCII bytes only.
pub open spec fn all_ascii(b: Seq<u8>) -> bool {
    forall|i: int| 0 <= i < b.len() ==> #[trigger] b[i] < 128
}

/// ASCII bytes are valid UTF-8.
pub proof fn lemma_ascii_valid(b: Seq<u8>)
    requires
        all_ascii(b),
    ensures
        valid_utf8(b),
{
    assert(b.subrange(0, 0) =~= Seq::<u8>::empty());
    assert(valid_utf8(Seq::<u8>::empty()));
    assert forall|i: int| 0 <= 0 <= i < b.len() <= b.len() implies #[trigger] is_leading_byte_width_1(b[i]) by {
        assert(b[i] < 128);
    }
    partial_valid_utf8_extend_ascii_block(b, 0, b.len() as int);
    assert(b.subrange(0, b.len() as int) =~= b);
}

/// The text of a `&str` is valid UTF-8.
pub proof fn lemma_str_valid(s: &str)
    ensures
        valid_utf8(s.spec_bytes()),
{
}

/// The owned string made of ASCII bytes.
pub fn string_from_ascii(bytes: Vec<u8>) -> (r: String)
    requires
        all_ascii(bytes@),
    ensures
        string_bytes(r) == bytes@,
{
    proof {
        lemma_ascii_valid(bytes@);
    }
    string_from_valid(bytes)
}

/// Appends the bytes of a literal.
pub fn push_str_bytes(out: &mut Vec<u8>, s: &str)
    ensures
        final(out)@ == old(out)@ + s.spec_bytes(),
{
    let bytes = s.as_bytes();
    let mut i: usize = 0;
    while i < bytes.len()
        invariant
            0 <= i <= bytes@.len(),
            out@ == old(out)@ + bytes@.subrange(0, i as int),
        decreases bytes@.len() - i,
    {
        out.push(bytes[i]);
        i = i + 1;
        assert(out@ =~= old(out)@ + bytes@.subrange(0, i as int));
    }
    assert(bytes@.subrange(0, bytes@.len() as int) =~= bytes@);
}

} // verus!

verus! {

/// UTF-8 encoding distributes over concatenation.
pub proof fn lemma_encode_concat(a: Seq<char>, b: Seq<char>)
    ensures
        encode_utf8(a + b) == encode_utf8(a) + encode_utf8(b),
    decreases a.len(),
{
    if a.len() == 0 {
        assert(a + b =~= b);
    } else {
        lemma_encode_concat(a.drop_first(), b);
        assert((a + b).drop_first() =~= a.drop_first() + b);
        assert((a + b)[0] == a[0]);
    }
}

/// Appends text to an owned string.
pub fn append_text(s: &mut String, t: &str)
    ensures
        final(s)@ == old(s)@ + t@,
        string_bytes(*final(s)) == string_bytes(*old(s)) + t.spec_bytes(),
{
    s.append(t);
    proof {
        lemma_encode_concat(old(s)@, t@);
    }
}

} // verus!

verus! {

/// In valid UTF-8, the position just after an ASCII byte is a character boundary.
pub proof fn lemma_boundary_after_ascii(b: Seq<u8>, i: int)
    requires
        valid_utf8(b),
        0 < i <= b.len(),
        b[i - 1] < 128,
    ensures
        is_char_boundary(b, i),
    decreases b.len(),
{
    let l = length_of_first_scalar(b);
    assert(valid_first_scalar(b));
    assert(1 <= l <= 4);
    if i < l {
        assert(is_continuation_byte(b[i - 1]));
        assert(false);
    }
    let rest = pop_first_scalar(b);
    assert(valid_utf8(rest));
    if i - l > 0 {
        assert(rest[i - l - 1] == b[i - 1]);
        lemma_boundary_after_ascii(rest, i - l);
    } else {
        assert(is_char_boundary(rest, 0));
    }
    assert(is_char_boundary(b, i) == is_char_boundary(rest, i - l));
}

/// Valid UTF-8 split after an ASCII byte leaves a valid UTF-8 remainder.
pub proof fn lemma_valid_after_ascii(b: Seq<u8>, i: int)
    requires
        valid_utf8(b),
        0 < i <= b.len(),
        b[i - 1] < 128,
    ensures
        valid_utf8(b.subrange(i, b.len() as int)),
        valid_utf8(b.subrange(0, i)),
{
    lemma_boundary_after_ascii(b, i);
    valid_utf8_split(b, i);
}

} // verus!

verus! {

/// Every occurrence of one byte replaced by another.
pub open spec fn replace_bytes(b: Seq<u8>, from: u8, to: u8) -> Seq<u8> {
    Seq::new(b.len(), |i: int| if b[i] == from { to } else { b[i] })
}

/// The first position at or after `i` that holds an ASCII byte, or the end.
pub open spec fn next_ascii(b: Seq<u8>, i: int) -> int
    decreases b.len() - i,
{
    if i >= b.len() {
        b.len() as int
    } else if b[i] < 128 {
        i
    } else {
        next_ascii(b, i + 1)
    }
}

proof fn lemma_next_ascii(b: Seq<u8>, i: int)
    requires
        0 <= i <= b.len(),
    ensures
        i <= next_ascii(b, i) <= b.len(),
        forall|k: int| i <= k < next_ascii(b, i) ==> #[trigger] b[k] >= 128,
        next_ascii(b, i) == b.len() || b[next_ascii(b, i)] < 128,
    decreases b.len() - i,
{
    if i < b.len() && b[i] >= 128 {
        lemma_next_ascii(b, i + 1);
    }
}

/// Replacing an ASCII byte by another ASCII byte keeps UTF-8 valid.
pub proof fn lemma_replace_valid(b: Seq<u8>, from: u8, to: u8)
    requires
        valid_utf8(b),
        from < 128,
        to < 128,
    ensures
        valid_utf8(replace_bytes(b, from, to)),
    decreases b.len(),
{
    if b.len() == 0 {
        assert(replace_bytes(b, from, to) =~= b);
        return;
    }
    let j = if b[0] < 128 {
        1
    } else {
        lemma_next_ascii(b, 1);
        next_ascii(b, 1)
    };
    if b[0] < 128 {
        lemma_boundary_after_ascii(b, 1);
    } else if j < b.len() {
        assert(!is_continuation_byte(b[j]));
        is_char_boundary_iff_not_is_continuation_byte(b, j);
    } else {
        is_char_boundary_start_end_of_seq(b);
    }
    valid_utf8_split(b, j);
    let head = b.subrange(0, j);
    let tail = b.subrange(j, b.len() as int);
    lemma_replace_valid(tail, from, to);
    if b[0] < 128 {
        let h = replace_bytes(head, from, to);
        assert(h[0] < 128);
        lemma_ascii_valid(h);
    } else {
        assert(replace_bytes(head, from, to) =~= head);
    }
    assert(replace_bytes(b, from, to) =~= replace_bytes(head, from, to) + replace_bytes(
        tail,
        from,
        to,
    ));
    valid_utf8_concat(replace_bytes(head, from, to), replace_bytes(tail, from, to));
}

/// A copy of the bytes with one ASCII byte replaced by another.
pub fn replaced_bytes(b: &[u8], from: u8, to: u8) -> (r: Vec<u8>)
    ensures
        r@ == replace_bytes(b@, from, to),
{
    let mut out: Vec<u8> = Vec::new();
    let mut i: usize = 0;
    while i < b.len()
        invariant
            0 <= i <= b@.len(),
            out@ =~= replace_bytes(b@.subrange(0, i as int), from, to),
        decreases b@.len() - i,
    {
        if b[i] == from {
            out.push(to);
        } else {
            out.push(b[i]);
        }
        i = i + 1;
    }
    assert(b@.subrange(0, b@.len() as int) =~= b@);
    out
}

} // verus!

verus! {

/// Valid UTF-8 cut before an ASCII byte, or at its end, gives two valid parts.
pub proof fn lemma_cut_at_ascii(b: Seq<u8>, j: int)
    requires
        valid_utf8(b),
        0 <= j <= b.len(),
        ascii_cut(b, j),
    ensures
        valid_utf8(b.subrange(0, j)),
        valid_utf8(b.subrange(j, b.len() as int)),
{
    if j < b.len() {
        assert(!is_continuation_byte(b[j]));
        is_char_boundary_iff_not_is_continuation_byte(b, j);
    } else {
        is_char_boundary_start_end_of_seq(b);
    }
    valid_utf8_split(b, j);
}

/// The owned string made of a range of bytes that is valid UTF-8.
pub fn string_from_valid_range(bytes: &[u8], start: usize, end: usize) -> (r: String)
    requires
        start <= end <= bytes@.len(),
        valid_utf8(bytes@.subrange(start as int, end as int)),
    ensures
        string_bytes(r) == bytes@.subrange(start as int, end as int),
{
    string_from_valid(copy_range(bytes, start, end))
}

} // verus!
