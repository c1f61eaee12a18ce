//! Conversion between UTF-8 byte offsets and UTF-16 line/character positions.
use vstd::prelude::*;
use vstd::string::StringSliceAdditionalSpecFns;
use crate::structure::ByteRange;

verus! {

/// A zero-based line and UTF-16 character position.
#[derive(Clone, Copy, Debug, PartialEq, Eq, Structural)]
pub struct Position {
    pub line: u32,
    pub character: u32,
}

/// A half-open range of positions.
#[derive(Clone, Copy, Debug, PartialEq, Eq, Structural)]
pub struct TextRange {
    pub start: Position,
    pub end: Position,
}

/// Position order: by line, then by character.
pub open spec fn position_le(a: Position, b: Position) -> bool {
    a.line < b.line || (a.line == b.line && a.character <= b.character)
}

pub fn position_less_equal(a: Position, b: Position) -> (r: bool)
    ensures
        r == position_le(a, b),
{
    a.line < b.line || (a.line == b.line && a.character <= b.character)
}

/// Offsets just after each `\n` at or after `i`.
pub open spec fn newline_ends(b: Seq<u8>, i: int) -> Seq<usize>
    decreases b.len() - i,
{
    if i < 0 || i >= b.len() {
        seq![]
    } else if b[i] == 10 {
        seq![(i + 1) as usize] + newline_ends(b, i + 1)
    } else {
        newline_ends(b, i + 1)
    }
}

/// Byte offset of the start of every line.
pub open spec fn line_starts_of(b: Seq<u8>) -> Seq<usize> {
    seq![0usize] + newline_ends(b, 0)
}

/// A UTF-8 continuation byte.
pub open spec fn is_continuation(b: u8) -> bool {
    0x80 <= b && b <= 0xBF
}

/// UTF-16 code units contributed by one UTF-8 byte: a character's leading
/// byte counts its units, continuation bytes count none.
pub open spec fn utf16_weight(b: u8) -> int {
    if is_continuation(b) {
        0
    } else if b >= 0xF0 {
        2
    } else {
        1
    }
}

/// UTF-16 code units of the characters in `b[from..to]`.
pub open spec fn utf16_units(b: Seq<u8>, from: int, to: int) -> int
    decreases to - from,
{
    if to <= from {
        0
    } else {
        utf16_units(b, from, to - 1) + utf16_weight(b[to - 1])
    }
}

/// Nearest character boundary at or before `offset`.
pub open spec fn boundary_at_or_before(b: Seq<u8>, offset: int) -> int
    decreases offset,
{
    if offset > 0 && offset < b.len() && is_continuation(b[offset]) {
        boundary_at_or_before(b, offset - 1)
    } else {
        offset
    }
}

/// Index of the first entry greater than `offset`, searching from `k`.
pub open spec fn first_greater(starts: Seq<usize>, offset: int, k: int) -> int
    decreases starts.len() - k,
{
    if k < 0 || k >= starts.len() {
        starts.len() as int
    } else if starts[k] > offset {
        k
    } else {
        first_greater(starts, offset, k + 1)
    }
}

pub open spec fn saturating(value: int) -> u32 {
    if value > u32::MAX {
        u32::MAX
    } else {
        value as u32
    }
}

/// The position of a byte offset, given the line starts of the text.
pub open spec fn position_spec(starts: Seq<usize>, b: Seq<u8>, byte_offset: int) -> Position {
    let clamped = if byte_offset < b.len() { byte_offset } else { b.len() as int };
    let offset = boundary_at_or_before(b, clamped);
    let after = first_greater(starts, offset, 0);
    let line = if after > 0 { after - 1 } else { 0 };
    Position { line: saturating(line), character: saturating(utf16_units(b, starts[line] as int, offset)) }
}

/// Byte offset of the first character boundary in `b[i..end]` reached with at
/// least `target` UTF-16 units counted, or `end`.
pub open spec fn offset_scan(b: Seq<u8>, i: int, end: int, units: int, target: int) -> int
    decreases end - i,
{
    if i >= end {
        end
    } else if is_continuation(b[i]) {
        offset_scan(b, i + 1, end, units, target)
    } else if units >= target {
        i
    } else {
        offset_scan(b, i + 1, end, units + utf16_weight(b[i]), target)
    }
}

/// The byte offset of a position, given the line starts of the text.
pub open spec fn byte_offset_spec(starts: Seq<usize>, b: Seq<u8>, position: Position) -> int {
    let line = position.line as int;
    let start = if line < starts.len() { starts[line] as int } else { b.len() as int };
    let end = if line + 1 < starts.len() { starts[line + 1] as int } else { b.len() as int };
    offset_scan(b, start, end, 0, position.character as int)
}

pub proof fn lemma_newline_ends(b: Seq<u8>, i: int)
    requires
        0 <= i,
        b.len() <= usize::MAX,
    ensures
        forall|k: int| 0 <= k < newline_ends(b, i).len() ==> i < #[trigger] newline_ends(b, i)[k] <= b.len(),
        forall|j: int, k: int| 0 <= j < k < newline_ends(b, i).len() ==> #[trigger] newline_ends(b, i)[j] < #[trigger] newline_ends(b, i)[k],
    decreases b.len() - i,
{
    if i < b.len() {
        lemma_newline_ends(b, i + 1);
        let rest = newline_ends(b, i + 1);
        let all = newline_ends(b, i);
        if b[i] == 10 {
            assert forall|k: int| 0 <= k < all.len() implies i < #[trigger] all[k] <= b.len() by {
                if k > 0 {
                    assert(all[k] == rest[k - 1]);
                }
            }
            assert forall|j: int, k: int| 0 <= j < k < all.len() implies #[trigger] all[j] < #[trigger] all[k] by {
                assert(all[k] == rest[k - 1]);
                if j > 0 {
                    assert(all[j] == rest[j - 1]);
                }
            }
        }
    }
}

/// Line starts are increasing offsets into the text, beginning at 0.
pub proof fn lemma_line_starts(b: Seq<u8>)
    requires
        b.len() <= usize::MAX,
    ensures
        line_starts_of(b).len() >= 1,
        line_starts_of(b)[0] == 0,
        forall|k: int| 0 <= k < line_starts_of(b).len() ==> #[trigger] line_starts_of(b)[k] <= b.len(),
        forall|j: int, k: int| 0 <= j < k < line_starts_of(b).len() ==> #[trigger] line_starts_of(b)[j] < #[trigger] line_starts_of(b)[k],
{
    lemma_newline_ends(b, 0);
    let s = line_starts_of(b);
    let rest = newline_ends(b, 0);
    assert forall|k: int| 0 <= k < s.len() implies #[trigger] s[k] <= b.len() by {
        if k > 0 {
            assert(s[k] == rest[k - 1]);
        }
    }
    assert forall|j: int, k: int| 0 <= j < k < s.len() implies #[trigger] s[j] < #[trigger] s[k] by {
        assert(s[k] == rest[k - 1]);
        if j > 0 {
            assert(s[j] == rest[j - 1]);
        }
    }
}

/// Converts UTF-8 byte offsets into UTF-16 LSP positions.
pub struct LineIndex {
    line_starts: Vec<usize>,
}

impl View for LineIndex {
    type V = Seq<usize>;

    closed spec fn view(&self) -> Seq<usize> {
        self.line_starts@
    }
}

impl LineIndex {
    /// Builds an index for the supplied source text.
    pub fn new(text: &str) -> (r: Self)
        ensures
            r@ == line_starts_of(text.spec_bytes()),
    {
        let bytes = text.as_bytes();
        let mut line_starts: Vec<usize> = Vec::new();
        line_starts.push(0);
        let mut offset: usize = 0;
        while offset < bytes.len()
            invariant
                0 <= offset <= bytes@.len(),
                line_starts@ + newline_ends(bytes@, offset as int) == line_starts_of(bytes@),
            decreases bytes@.len() - offset,
        {
            if bytes[offset] == 10 {
                line_starts.push(offset + 1);
                assert(line_starts@ + newline_ends(bytes@, offset + 1) =~= line_starts_of(bytes@));
            }
            offset = offset + 1;
        }
        assert(line_starts@ =~= line_starts_of(bytes@));
        LineIndex { line_starts }
    }

    /// Converts a UTF-8 byte offset into an LSP position.
    pub fn position(&self, text: &str, byte_offset: usize) -> (r: Position)
        requires
            self@ == line_starts_of(text.spec_bytes()),
        ensures
            r == position_spec(self@, text.spec_bytes(), byte_offset as int),
    {
        let bytes = text.as_bytes();
        let n = bytes.len();
        proof {
            lemma_line_starts(bytes@);
        }
        let mut offset = if byte_offset < bytes.len() { byte_offset } else { bytes.len() };
        while offset > 0 && offset < bytes.len() && 0x80 <= bytes[offset] && bytes[offset] <= 0xBF
            invariant
                0 <= offset <= bytes@.len(),
                boundary_at_or_before(bytes@, offset as int) == boundary_at_or_before(
                    bytes@,
                    if byte_offset < bytes@.len() { byte_offset as int } else { bytes@.len() as int },
                ),
            decreases offset,
        {
            offset = offset - 1;
        }
        let mut after: usize = 0;
        while after < self.line_starts.len() && self.line_starts[after] <= offset
            invariant
                self@ == line_starts_of(bytes@),
                0 <= after <= self@.len(),
                forall|k: int| 0 <= k < after ==> self@[k] <= offset,
                first_greater(self@, offset as int, after as int) == first_greater(self@, offset as int, 0),
            decreases self@.len() - after,
        {
            after = after + 1;
        }
        let line = if after > 0 { after - 1 } else { 0 };
        let line_start = self.line_starts[line];
        let mut units: u128 = 0;
        let mut i = line_start;
        while i < offset
            invariant
                line_start <= i <= offset <= bytes@.len(),
                units == utf16_units(bytes@, line_start as int, i as int),
                units <= 2 * (i - line_start),
            decreases offset - i,
        {
            let b = bytes[i];
            if !(0x80 <= b && b <= 0xBF) {
                if b >= 0xF0 {
                    units = units + 2;
                } else {
                    units = units + 1;
                }
            }
            i = i + 1;
        }
        let character = if units > (u32::MAX as u128) { u32::MAX } else { units as u32 };
        Position { line: saturating_u32(line), character }
    }

    /// Converts a half-open UTF-8 byte range into an LSP range.
    pub fn range(&self, text: &str, byte_range: ByteRange) -> (r: TextRange)
        requires
            self@ == line_starts_of(text.spec_bytes()),
        ensures
            r.start == position_spec(self@, text.spec_bytes(), byte_range.start as int),
            r.end == position_spec(self@, text.spec_bytes(), byte_range.end as int),
    {
        TextRange { start: self.position(text, byte_range.start), end: self.position(text, byte_range.end) }
    }

    /// Converts a UTF-16 LSP position into a UTF-8 byte offset.
    pub fn byte_offset(&self, text: &str, position: Position) -> (r: usize)
        requires
            self@ == line_starts_of(text.spec_bytes()),
        ensures
            r == byte_offset_spec(self@, text.spec_bytes(), position),
    {
        let bytes = text.as_bytes();
        let n = bytes.len();
        proof {
            lemma_line_starts(bytes@);
        }
        let line = position.line as usize;
        let start = if line < self.line_starts.len() { self.line_starts[line] } else { bytes.len() };
        let end = if line < self.line_starts.len() && self.line_starts.len() - line > 1 {
            self.line_starts[line + 1]
        } else {
            bytes.len()
        };
        let target = position.character as u64;
        let mut units: u64 = 0;
        let mut i = start;
        while i < end
            invariant
                start <= end <= bytes@.len(),
                start <= i <= end,
                bytes@ == text.spec_bytes(),
                target == position.character,
                units <= target + 1,
                offset_scan(bytes@, i as int, end as int, units as int, target as int) == byte_offset_spec(self@, bytes@, position),
            decreases end - i,
        {
            let b = bytes[i];
            if !(0x80 <= b && b <= 0xBF) {
                if units >= target {
                    return i;
                }
                if b >= 0xF0 {
                    units = units + 2;
                } else {
                    units = units + 1;
                }
            }
            i = i + 1;
        }
        end
    }
}

/// `u32::try_from(value).unwrap_or(u32::MAX)`.
pub fn saturating_u32(value: usize) -> (r: u32)
    ensures
        r == saturating(value as int),
{
    if value > (u32::MAX as usize) {
        u32::MAX
    } else {
        value as u32
    }
}

} // verus!
