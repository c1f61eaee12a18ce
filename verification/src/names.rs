//! Identifier scanning around a cursor position, used by completion, hover
//! and signature help to find the word under the cursor and the receiver of a
//! member access.
use vstd::prelude::*;
use vstd::string::StringSliceAdditionalSpecFns;
use crate::semantic::Declaration;
use crate::structure::ByteRange;
use crate::text::{
    all_ascii, copy_range, is_word, is_word_byte, same_ignoring_case, str_equal_ignoring_case,
    string_bytes, string_from_ascii,
};
use crate::type_system::spec_is_primitive_name;

verus! {

/// Space or tab.
pub open spec fn spec_is_inline_whitespace(b: u8) -> bool {
    b == 32 || b == 9
}

/// A byte of a possibly namespaced receiver: identifier bytes and `:`.
pub open spec fn is_receiver_byte(b: u8) -> bool {
    is_word(b) || b == 58
}

/// The byte classes that the cursor scans skip over.
#[derive(Clone, Copy, Debug, PartialEq, Eq, Structural)]
pub enum ByteClass {
    Word,
    InlineSpace,
    Receiver,
}

pub open spec fn in_class(class: ByteClass, b: u8) -> bool {
    match class {
        ByteClass::Word => is_word(b),
        ByteClass::InlineSpace => spec_is_inline_whitespace(b),
        ByteClass::Receiver => is_receiver_byte(b),
    }
}

/// The start of the run of bytes of a class that ends at `i`.
pub open spec fn skip_back(b: Seq<u8>, i: int, class: ByteClass) -> int
    decreases i,
{
    if 0 < i <= b.len() && in_class(class, b[i - 1]) {
        skip_back(b, i - 1, class)
    } else {
        i
    }
}

/// The end of the run of bytes of a class that starts at `i`.
pub open spec fn skip_forward(b: Seq<u8>, i: int, class: ByteClass) -> int
    decreases b.len() - i,
{
    if 0 <= i < b.len() && in_class(class, b[i]) {
        skip_forward(b, i + 1, class)
    } else {
        i
    }
}

pub proof fn lemma_skip_back(b: Seq<u8>, i: int, class: ByteClass)
    requires
        0 <= i <= b.len(),
    ensures
        0 <= skip_back(b, i, class) <= i,
        forall|k: int| skip_back(b, i, class) <= k < i ==> in_class(class, #[trigger] b[k]),
        skip_back(b, i, class) == 0 || !in_class(class, b[skip_back(b, i, class) - 1]),
    decreases i,
{
    if 0 < i && in_class(class, b[i - 1]) {
        lemma_skip_back(b, i - 1, class);
    }
}

pub proof fn lemma_skip_forward(b: Seq<u8>, i: int, class: ByteClass)
    requires
        0 <= i <= b.len(),
    ensures
        i <= skip_forward(b, i, class) <= b.len(),
        forall|k: int| i <= k < skip_forward(b, i, class) ==> in_class(class, #[trigger] b[k]),
        skip_forward(b, i, class) == b.len() || !in_class(class, b[skip_forward(b, i, class)]),
    decreases b.len() - i,
{
    if i < b.len() && in_class(class, b[i]) {
        lemma_skip_forward(b, i + 1, class);
    }
}

/// `byte.is_ascii_alphanumeric() || byte == b'_'`.
pub fn is_identifier(byte: u8) -> (r: bool)
    ensures
        r == is_word(byte),
{
    is_word_byte(byte)
}

pub fn is_inline_whitespace(byte: u8) -> (r: bool)
    ensures
        r == spec_is_inline_whitespace(byte),
{
    byte == 32 || byte == 9
}

fn class_contains(class: ByteClass, b: u8) -> (r: bool)
    ensures
        r == in_class(class, b),
{
    match class {
        ByteClass::Word => is_word_byte(b),
        ByteClass::InlineSpace => is_inline_whitespace(b),
        ByteClass::Receiver => is_word_byte(b) || b == 58,
    }
}

fn skip_back_from(bytes: &[u8], i: usize, class: ByteClass) -> (r: usize)
    requires
        i <= bytes@.len(),
    ensures
        r == skip_back(bytes@, i as int, class),
{
    let mut j = i;
    while j > 0 && class_contains(class, bytes[j - 1])
        invariant
            j <= i <= bytes@.len(),
            skip_back(bytes@, j as int, class) == skip_back(bytes@, i as int, class),
        decreases j,
    {
        j = j - 1;
    }
    j
}

fn skip_forward_from(bytes: &[u8], i: usize, class: ByteClass) -> (r: usize)
    requires
        i <= bytes@.len(),
    ensures
        r == skip_forward(bytes@, i as int, class),
{
    let mut j = i;
    while j < bytes.len() && class_contains(class, bytes[j])
        invariant
            i <= j <= bytes@.len(),
            skip_forward(bytes@, j as int, class) == skip_forward(bytes@, i as int, class),
        decreases bytes@.len() - j,
    {
        j = j + 1;
    }
    j
}

/// A `:`-separated name each of whose segments is a non-empty identifier.
pub open spec fn spec_is_qualified_identifier(v: Seq<u8>) -> bool {
    &&& v.len() > 0
    &&& v[0] != 58
    &&& v[v.len() - 1] != 58
    &&& forall|i: int| 0 <= i < v.len() ==> is_receiver_byte(#[trigger] v[i])
    &&& forall|i: int| 0 < i < v.len() && #[trigger] v[i] == 58 ==> v[i - 1] != 58
}

/// Whether every `:`-separated segment of the text is a non-empty identifier.
pub fn is_qualified_identifier(value: &str) -> (r: bool)
    ensures
        r == spec_is_qualified_identifier(value.spec_bytes()),
{
    let bytes = value.as_bytes();
    let n = bytes.len();
    if n == 0 || bytes[0] == 58 || bytes[n - 1] == 58 {
        return false;
    }
    let mut i: usize = 0;
    while i < n
        invariant
            n == bytes@.len(),
            bytes@ == value.spec_bytes(),
            0 <= i <= n,
            forall|k: int| 0 <= k < i ==> is_receiver_byte(#[trigger] bytes@[k]),
            forall|k: int| 0 < k < i && #[trigger] bytes@[k] == 58 ==> bytes@[k - 1] != 58,
        decreases n - i,
    {
        let b = bytes[i];
        if !(is_word_byte(b) || b == 58) {
            return false;
        }
        if i > 0 && b == 58 && bytes[i - 1] == 58 {
            return false;
        }
        i = i + 1;
    }
    true
}

/// The cursor position clamped to the text.
pub open spec fn clamp(b: Seq<u8>, offset: int) -> int {
    if offset < b.len() {
        offset
    } else {
        b.len() as int
    }
}

/// The span of the text before the `.` that precedes the identifier at the
/// cursor: skip back over the identifier, blanks, the dot and blanks again,
/// then over identifier and `:` bytes.
pub open spec fn receiver_span(b: Seq<u8>, offset: int) -> Option<(int, int)> {
    let i = skip_back(b, skip_back(b, clamp(b, offset), ByteClass::Word), ByteClass::InlineSpace);
    if i == 0 || b[i - 1] != 46 {
        None
    } else {
        let end = skip_back(b, i - 1, ByteClass::InlineSpace);
        Some((skip_back(b, end, ByteClass::Receiver), end))
    }
}

/// The receiver before the member access at the cursor, if it is a
/// (qualified) identifier.
pub open spec fn receiver_before_dot_spec(b: Seq<u8>, offset: int) -> Option<Seq<u8>> {
    match receiver_span(b, offset) {
        Some((start, end)) => if spec_is_qualified_identifier(b.subrange(start, end)) {
            Some(b.subrange(start, end))
        } else {
            None
        },
        None => None,
    }
}

/// The receiver of the member access being typed at `offset`: in
/// `Game.GetPlayer`, with the cursor after the dot or inside the member name,
/// this is `Game`.
pub fn receiver_before_dot(text: &str, offset: usize) -> (r: Option<String>)
    ensures
        r.is_some() == receiver_before_dot_spec(text.spec_bytes(), offset as int).is_some(),
        r matches Some(s) ==> string_bytes(s) == receiver_before_dot_spec(
            text.spec_bytes(),
            offset as int,
        ).unwrap(),
{
    let bytes = text.as_bytes();
    let ghost b = bytes@;
    let start = if offset < bytes.len() {
        offset
    } else {
        bytes.len()
    };
    let word_start = skip_back_from(bytes, start, ByteClass::Word);
    proof {
        lemma_skip_back(b, start as int, ByteClass::Word);
    }
    let index = skip_back_from(bytes, word_start, ByteClass::InlineSpace);
    proof {
        lemma_skip_back(b, word_start as int, ByteClass::InlineSpace);
    }
    if index == 0 || bytes[index - 1] != 46 {
        return None;
    }
    let end = skip_back_from(bytes, index - 1, ByteClass::InlineSpace);
    proof {
        lemma_skip_back(b, (index - 1) as int, ByteClass::InlineSpace);
    }
    let receiver_start = skip_back_from(bytes, end, ByteClass::Receiver);
    proof {
        lemma_skip_back(b, end as int, ByteClass::Receiver);
    }
    let receiver = copy_range(bytes, receiver_start, end);
    if !is_qualified_bytes(&receiver) {
        return None;
    }
    proof {
        assert forall|k: int| 0 <= k < receiver@.len() implies #[trigger] receiver@[k] < 128 by {
            assert(in_class(ByteClass::Receiver, b[receiver_start + k]));
        }
    }
    Some(string_from_ascii(receiver))
}

fn is_qualified_bytes(bytes: &Vec<u8>) -> (r: bool)
    ensures
        r == spec_is_qualified_identifier(bytes@),
{
    let n = bytes.len();
    if n == 0 || bytes[0] == 58 || bytes[n - 1] == 58 {
        return false;
    }
    let mut i: usize = 0;
    while i < n
        invariant
            n == bytes@.len(),
            0 <= i <= n,
            forall|k: int| 0 <= k < i ==> is_receiver_byte(#[trigger] bytes@[k]),
            forall|k: int| 0 < k < i && #[trigger] bytes@[k] == 58 ==> bytes@[k - 1] != 58,
        decreases n - i,
    {
        let b = bytes[i];
        if !(is_word_byte(b) || b == 58) {
            return false;
        }
        if i > 0 && b == 58 && bytes[i - 1] == 58 {
            return false;
        }
        i = i + 1;
    }
    true
}

/// The identifier around the cursor: the maximal run of identifier bytes
/// that touches the clamped offset, if it is not empty.
pub open spec fn word_span(b: Seq<u8>, offset: int) -> Option<(int, int)> {
    let start = skip_back(b, clamp(b, offset), ByteClass::Word);
    let end = skip_forward(b, clamp(b, offset), ByteClass::Word);
    if start < end {
        Some((start, end))
    } else {
        None
    }
}

/// The byte range of the identifier under the cursor.
pub fn word_byte_range(text: &str, offset: usize) -> (r: Option<ByteRange>)
    ensures
        r.is_some() == word_span(text.spec_bytes(), offset as int).is_some(),
        r matches Some(range) ==> word_span(text.spec_bytes(), offset as int) == Some(
            (range.start as int, range.end as int),
        ),
{
    let bytes = text.as_bytes();
    let at = if offset < bytes.len() {
        offset
    } else {
        bytes.len()
    };
    let start = skip_back_from(bytes, at, ByteClass::Word);
    let end = skip_forward_from(bytes, at, ByteClass::Word);
    if start < end {
        Some(ByteRange { start, end })
    } else {
        None
    }
}

/// The identifier under the cursor.
pub fn word_at(text: &str, offset: usize) -> (r: Option<String>)
    ensures
        r.is_some() == word_span(text.spec_bytes(), offset as int).is_some(),
        r matches Some(s) ==> ({
            let (start, end) = word_span(text.spec_bytes(), offset as int).unwrap();
            string_bytes(s) == text.spec_bytes().subrange(start, end)
        }),
{
    let bytes = text.as_bytes();
    let ghost b = bytes@;
    match word_byte_range(text, offset) {
        None => None,
        Some(range) => {
            let ghost at = clamp(b, offset as int);
            proof {
                lemma_skip_back(b, at, ByteClass::Word);
                lemma_skip_forward(b, at, ByteClass::Word);
            }
            let word = copy_range(bytes, range.start, range.end);
            proof {
                assert forall|k: int| 0 <= k < word@.len() implies #[trigger] word@[k] < 128 by {
                    assert(in_class(ByteClass::Word, b[range.start + k]));
                }
            }
            Some(string_from_ascii(word))
        },
    }
}

/// The receiver of the member whose name contains the cursor.
pub fn receiver_before_member(text: &str, offset: usize) -> (r: Option<String>)
    ensures
        r.is_some() == receiver_before_dot_spec(
            text.spec_bytes(),
            skip_back(text.spec_bytes(), clamp(text.spec_bytes(), offset as int), ByteClass::Word),
        ).is_some(),
        r matches Some(s) ==> string_bytes(s) == receiver_before_dot_spec(
            text.spec_bytes(),
            skip_back(text.spec_bytes(), clamp(text.spec_bytes(), offset as int), ByteClass::Word),
        ).unwrap(),
{
    let bytes = text.as_bytes();
    let at = if offset < bytes.len() {
        offset
    } else {
        bytes.len()
    };
    let start = skip_back_from(bytes, at, ByteClass::Word);
    receiver_before_dot(text, start)
}

/// One of the primitive type names, compared without case.
pub fn is_primitive_type(name: &str) -> (r: bool)
    ensures
        r == spec_is_primitive_name(name.spec_bytes()),
{
    str_equal_ignoring_case(name, "Bool") || str_equal_ignoring_case(name, "Float")
        || str_equal_ignoring_case(name, "Int") || str_equal_ignoring_case(name, "String")
        || str_equal_ignoring_case(name, "Var")
}

/// A declaration offered for completion after an instance receiver: not a
/// constant, neither by flag nor by a `CONST_` name prefix (in any case).
pub open spec fn spec_is_instance_completion_candidate(is_const: bool, name: Seq<u8>) -> bool {
    !is_const && !(name.len() >= 6 && same_ignoring_case(name.subrange(0, 6), "CONST_".spec_bytes()))
}

pub fn is_instance_completion_candidate(declaration: &Declaration) -> (r: bool)
    ensures
        r == spec_is_instance_completion_candidate(
            declaration.is_const,
            string_bytes(declaration.name),
        ),
{
    if declaration.is_const {
        return false;
    }
    let bytes = declaration.name.as_str().as_bytes();
    if bytes.len() < 6 {
        return true;
    }
    let prefix = copy_range(bytes, 0, 6);
    !crate::text::equal_ignoring_case(prefix.as_slice(), "CONST_".as_bytes())
}

/// The identifier that ends before `offset`, blanks between skipped.
pub open spec fn identifier_before(b: Seq<u8>, offset: int) -> Option<(int, int)> {
    let end = skip_back(b, clamp(b, offset), ByteClass::InlineSpace);
    let start = skip_back(b, end, ByteClass::Word);
    if start < end {
        Some((start, end))
    } else {
        None
    }
}

/// The byte range of the identifier before `offset`, blanks between
/// skipped (`identifier_range_before`).
pub fn identifier_range_before(source: &str, offset: usize) -> (r: Option<ByteRange>)
    ensures
        match identifier_before(source.spec_bytes(), offset as int) {
            Some((s, e)) => 0 <= s < e <= source.spec_bytes().len() && r == Some(
                ByteRange { start: s as usize, end: e as usize },
            ),
            None => r is None,
        },
{
    let bytes = source.as_bytes();
    let cut = if offset < bytes.len() {
        offset
    } else {
        bytes.len()
    };
    let end = skip_back_from(bytes, cut, ByteClass::InlineSpace);
    proof {
        lemma_skip_back(bytes@, cut as int, ByteClass::InlineSpace);
    }
    let start = skip_back_from(bytes, end, ByteClass::Word);
    proof {
        lemma_skip_back(bytes@, end as int, ByteClass::Word);
    }
    if start < end {
        Some(ByteRange { start, end })
    } else {
        None
    }
}

} // verus!
