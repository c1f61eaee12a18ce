//! Structural validation of Papyrus block pairs, independent of parser recovery.
//!
//! The validator masks strings and comments, groups physical lines joined by a
//! trailing `\` into statements, and tracks opening and closing keywords on a
//! stack.
use vstd::prelude::*;
use vstd::string::StringSliceAdditionalSpecFns;
use crate::text::{
    bytes_equal, copy_range, is_alpha_byte, is_word, is_word_byte, is_word_start, lower_seq,
    lowercase_range,
};

verus! {

/// A half-open UTF-8 byte range.
#[derive(Clone, Copy, Debug, PartialEq, Eq, Structural)]
pub struct ByteRange {
    pub start: usize,
    pub end: usize,
}

/// Kind of a Papyrus block.
#[derive(Clone, Copy, Debug, PartialEq, Eq, Structural)]
pub enum BlockKind {
    Event,
    Function,
    Group,
    If,
    LockGuard,
    State,
    Struct,
    TryLockGuard,
    While,
}

impl BlockKind {
    /// The keyword that closes a block of this kind.
    pub open spec fn closing_text(self) -> Seq<char> {
        match self {
            BlockKind::Event => "EndEvent"@,
            BlockKind::Function => "EndFunction"@,
            BlockKind::Group => "EndGroup"@,
            BlockKind::If => "EndIf"@,
            BlockKind::LockGuard => "EndLockGuard"@,
            BlockKind::State => "EndState"@,
            BlockKind::Struct => "EndStruct"@,
            BlockKind::TryLockGuard => "EndTryLockGuard"@,
            BlockKind::While => "EndWhile"@,
        }
    }

    /// The lowercase keyword that opens a block of this kind.
    pub open spec fn opening_bytes(self) -> Seq<u8> {
        match self {
            BlockKind::Event => "event".spec_bytes(),
            BlockKind::Function => "function".spec_bytes(),
            BlockKind::Group => "group".spec_bytes(),
            BlockKind::If => "if".spec_bytes(),
            BlockKind::LockGuard => "lockguard".spec_bytes(),
            BlockKind::State => "state".spec_bytes(),
            BlockKind::Struct => "struct".spec_bytes(),
            BlockKind::TryLockGuard => "trylockguard".spec_bytes(),
            BlockKind::While => "while".spec_bytes(),
        }
    }

    pub fn closing_keyword(self) -> (r: &'static str)
        ensures
            r@ == self.closing_text(),
    {
        match self {
            BlockKind::Event => "EndEvent",
            BlockKind::Function => "EndFunction",
            BlockKind::Group => "EndGroup",
            BlockKind::If => "EndIf",
            BlockKind::LockGuard => "EndLockGuard",
            BlockKind::State => "EndState",
            BlockKind::Struct => "EndStruct",
            BlockKind::TryLockGuard => "EndTryLockGuard",
            BlockKind::While => "EndWhile",
        }
    }
}

/// The block kind closed by a lowercase keyword.
pub open spec fn closing_kind_of(keyword: Seq<u8>) -> Option<BlockKind> {
    if keyword == "endevent".spec_bytes() {
        Some(BlockKind::Event)
    } else if keyword == "endfunction".spec_bytes() {
        Some(BlockKind::Function)
    } else if keyword == "endgroup".spec_bytes() {
        Some(BlockKind::Group)
    } else if keyword == "endif".spec_bytes() {
        Some(BlockKind::If)
    } else if keyword == "endlockguard".spec_bytes() {
        Some(BlockKind::LockGuard)
    } else if keyword == "endstate".spec_bytes() {
        Some(BlockKind::State)
    } else if keyword == "endstruct".spec_bytes() {
        Some(BlockKind::Struct)
    } else if keyword == "endtrylockguard".spec_bytes() {
        Some(BlockKind::TryLockGuard)
    } else if keyword == "endwhile".spec_bytes() {
        Some(BlockKind::While)
    } else {
        None
    }
}

proof fn lemma_encode_concat(a: Seq<char>, b: Seq<char>)
    ensures
        vstd::utf8::encode_utf8(a + b) == vstd::utf8::encode_utf8(a) + vstd::utf8::encode_utf8(b),
    decreases a.len(),
{
    if a.len() == 0 {
        assert(a + b =~= b);
        assert(vstd::utf8::encode_utf8(a) + vstd::utf8::encode_utf8(b) =~= vstd::utf8::encode_utf8(b));
    } else {
        lemma_encode_concat(a.drop_first(), b);
        assert((a + b).drop_first() =~= a.drop_first() + b);
        assert((a + b)[0] == a[0]);
    }
}

/// Every block is closed by `end` followed by the keyword that opens it:
/// that word is recognised as closing exactly that kind.
pub proof fn law_end_keyword_closes_its_block(k: BlockKind)
    ensures
        closing_kind_of("end".spec_bytes() + k.opening_bytes()) == Some(k),
{
    reveal_strlit("end");
    reveal_strlit("endevent");
    vstd::utf8::is_ascii_chars_encode_utf8("endevent"@);
    reveal_strlit("endfunction");
    vstd::utf8::is_ascii_chars_encode_utf8("endfunction"@);
    reveal_strlit("endgroup");
    vstd::utf8::is_ascii_chars_encode_utf8("endgroup"@);
    reveal_strlit("endif");
    vstd::utf8::is_ascii_chars_encode_utf8("endif"@);
    reveal_strlit("endlockguard");
    vstd::utf8::is_ascii_chars_encode_utf8("endlockguard"@);
    reveal_strlit("endstate");
    vstd::utf8::is_ascii_chars_encode_utf8("endstate"@);
    reveal_strlit("endstruct");
    vstd::utf8::is_ascii_chars_encode_utf8("endstruct"@);
    reveal_strlit("endtrylockguard");
    vstd::utf8::is_ascii_chars_encode_utf8("endtrylockguard"@);
    reveal_strlit("endwhile");
    vstd::utf8::is_ascii_chars_encode_utf8("endwhile"@);
    match k {
        BlockKind::Event => {
            reveal_strlit("event");
            lemma_encode_concat("end"@, "event"@);
            assert("end"@ + "event"@ =~= "endevent"@);
            assert("end".spec_bytes() + "event".spec_bytes() == "endevent".spec_bytes());

        },
        BlockKind::Function => {
            reveal_strlit("function");
            lemma_encode_concat("end"@, "function"@);
            assert("end"@ + "function"@ =~= "endfunction"@);
            assert("end".spec_bytes() + "function".spec_bytes() == "endfunction".spec_bytes());
            assert("endfunction".spec_bytes().len() != "endevent".spec_bytes().len() || "endfunction".spec_bytes()[3] != "endevent".spec_bytes()[3]);
        },
        BlockKind::Group => {
            reveal_strlit("group");
            lemma_encode_concat("end"@, "group"@);
            assert("end"@ + "group"@ =~= "endgroup"@);
            assert("end".spec_bytes() + "group".spec_bytes() == "endgroup".spec_bytes());
            assert("endgroup".spec_bytes().len() != "endevent".spec_bytes().len() || "endgroup".spec_bytes()[3] != "endevent".spec_bytes()[3]);
            assert("endgroup".spec_bytes().len() != "endfunction".spec_bytes().len() || "endgroup".spec_bytes()[3] != "endfunction".spec_bytes()[3]);
        },
        BlockKind::If => {
            reveal_strlit("if");
            lemma_encode_concat("end"@, "if"@);
            assert("end"@ + "if"@ =~= "endif"@);
            assert("end".spec_bytes() + "if".spec_bytes() == "endif".spec_bytes());
            assert("endif".spec_bytes().len() != "endevent".spec_bytes().len() || "endif".spec_bytes()[3] != "endevent".spec_bytes()[3]);
            assert("endif".spec_bytes().len() != "endfunction".spec_bytes().len() || "endif".spec_bytes()[3] != "endfunction".spec_bytes()[3]);
            assert("endif".spec_bytes().len() != "endgroup".spec_bytes().len() || "endif".spec_bytes()[3] != "endgroup".spec_bytes()[3]);
        },
        BlockKind::LockGuard => {
            reveal_strlit("lockguard");
            lemma_encode_concat("end"@, "lockguard"@);
            assert("end"@ + "lockguard"@ =~= "endlockguard"@);
            assert("end".spec_bytes() + "lockguard".spec_bytes() == "endlockguard".spec_bytes());
            assert("endlockguard".spec_bytes().len() != "endevent".spec_bytes().len() || "endlockguard".spec_bytes()[3] != "endevent".spec_bytes()[3]);
            assert("endlockguard".spec_bytes().len() != "endfunction".spec_bytes().len() || "endlockguard".spec_bytes()[3] != "endfunction".spec_bytes()[3]);
            assert("endlockguard".spec_bytes().len() != "endgroup".spec_bytes().len() || "endlockguard".spec_bytes()[3] != "endgroup".spec_bytes()[3]);
            assert("endlockguard".spec_bytes().len() != "endif".spec_bytes().len() || "endlockguard".spec_bytes()[3] != "endif".spec_bytes()[3]);
        },
        BlockKind::State => {
            reveal_strlit("state");
            lemma_encode_concat("end"@, "state"@);
            assert("end"@ + "state"@ =~= "endstate"@);
            assert("end".spec_bytes() + "state".spec_bytes() == "endstate".spec_bytes());
            assert("endstate".spec_bytes().len() != "endevent".spec_bytes().len() || "endstate".spec_bytes()[3] != "endevent".spec_bytes()[3]);
            assert("endstate".spec_bytes().len() != "endfunction".spec_bytes().len() || "endstate".spec_bytes()[3] != "endfunction".spec_bytes()[3]);
            assert("endstate".spec_bytes().len() != "endgroup".spec_bytes().len() || "endstate".spec_bytes()[3] != "endgroup".spec_bytes()[3]);
            assert("endstate".spec_bytes().len() != "endif".spec_bytes().len() || "endstate".spec_bytes()[3] != "endif".spec_bytes()[3]);
            assert("endstate".spec_bytes().len() != "endlockguard".spec_bytes().len() || "endstate".spec_bytes()[3] != "endlockguard".spec_bytes()[3]);
        },
        BlockKind::Struct => {
            reveal_strlit("struct");
            lemma_encode_concat("end"@, "struct"@);
            assert("end"@ + "struct"@ =~= "endstruct"@);
            assert("end".spec_bytes() + "struct".spec_bytes() == "endstruct".spec_bytes());
            assert("endstruct".spec_bytes().len() != "endevent".spec_bytes().len() || "endstruct".spec_bytes()[3] != "endevent".spec_bytes()[3]);
            assert("endstruct".spec_bytes().len() != "endfunction".spec_bytes().len() || "endstruct".spec_bytes()[3] != "endfunction".spec_bytes()[3]);
            assert("endstruct".spec_bytes().len() != "endgroup".spec_bytes().len() || "endstruct".spec_bytes()[3] != "endgroup".spec_bytes()[3]);
            assert("endstruct".spec_bytes().len() != "endif".spec_bytes().len() || "endstruct".spec_bytes()[3] != "endif".spec_bytes()[3]);
            assert("endstruct".spec_bytes().len() != "endlockguard".spec_bytes().len() || "endstruct".spec_bytes()[3] != "endlockguard".spec_bytes()[3]);
            assert("endstruct".spec_bytes().len() != "endstate".spec_bytes().len() || "endstruct".spec_bytes()[3] != "endstate".spec_bytes()[3]);
        },
        BlockKind::TryLockGuard => {
            reveal_strlit("trylockguard");
            lemma_encode_concat("end"@, "trylockguard"@);
            assert("end"@ + "trylockguard"@ =~= "endtrylockguard"@);
            assert("end".spec_bytes() + "trylockguard".spec_bytes() == "endtrylockguard".spec_bytes());
            assert("endtrylockguard".spec_bytes().len() != "endevent".spec_bytes().len() || "endtrylockguard".spec_bytes()[3] != "endevent".spec_bytes()[3]);
            assert("endtrylockguard".spec_bytes().len() != "endfunction".spec_bytes().len() || "endtrylockguard".spec_bytes()[3] != "endfunction".spec_bytes()[3]);
            assert("endtrylockguard".spec_bytes().len() != "endgroup".spec_bytes().len() || "endtrylockguard".spec_bytes()[3] != "endgroup".spec_bytes()[3]);
            assert("endtrylockguard".spec_bytes().len() != "endif".spec_bytes().len() || "endtrylockguard".spec_bytes()[3] != "endif".spec_bytes()[3]);
            assert("endtrylockguard".spec_bytes().len() != "endlockguard".spec_bytes().len() || "endtrylockguard".spec_bytes()[3] != "endlockguard".spec_bytes()[3]);
            assert("endtrylockguard".spec_bytes().len() != "endstate".spec_bytes().len() || "endtrylockguard".spec_bytes()[3] != "endstate".spec_bytes()[3]);
            assert("endtrylockguard".spec_bytes().len() != "endstruct".spec_bytes().len() || "endtrylockguard".spec_bytes()[3] != "endstruct".spec_bytes()[3]);
        },
        BlockKind::While => {
            reveal_strlit("while");
            lemma_encode_concat("end"@, "while"@);
            assert("end"@ + "while"@ =~= "endwhile"@);
            assert("end".spec_bytes() + "while".spec_bytes() == "endwhile".spec_bytes());
            assert("endwhile".spec_bytes().len() != "endevent".spec_bytes().len() || "endwhile".spec_bytes()[3] != "endevent".spec_bytes()[3]);
            assert("endwhile".spec_bytes().len() != "endfunction".spec_bytes().len() || "endwhile".spec_bytes()[3] != "endfunction".spec_bytes()[3]);
            assert("endwhile".spec_bytes().len() != "endgroup".spec_bytes().len() || "endwhile".spec_bytes()[3] != "endgroup".spec_bytes()[3]);
            assert("endwhile".spec_bytes().len() != "endif".spec_bytes().len() || "endwhile".spec_bytes()[3] != "endif".spec_bytes()[3]);
            assert("endwhile".spec_bytes().len() != "endlockguard".spec_bytes().len() || "endwhile".spec_bytes()[3] != "endlockguard".spec_bytes()[3]);
            assert("endwhile".spec_bytes().len() != "endstate".spec_bytes().len() || "endwhile".spec_bytes()[3] != "endstate".spec_bytes()[3]);
            assert("endwhile".spec_bytes().len() != "endstruct".spec_bytes().len() || "endwhile".spec_bytes()[3] != "endstruct".spec_bytes()[3]);
            assert("endwhile".spec_bytes().len() != "endtrylockguard".spec_bytes().len() || "endwhile".spec_bytes()[3] != "endtrylockguard".spec_bytes()[3]);
        },
    }
}

pub fn closing_kind(keyword: &[u8]) -> (r: Option<BlockKind>)
    ensures
        r == closing_kind_of(keyword@),
{
    if bytes_equal(keyword, "endevent".as_bytes()) {
        Some(BlockKind::Event)
    } else if bytes_equal(keyword, "endfunction".as_bytes()) {
        Some(BlockKind::Function)
    } else if bytes_equal(keyword, "endgroup".as_bytes()) {
        Some(BlockKind::Group)
    } else if bytes_equal(keyword, "endif".as_bytes()) {
        Some(BlockKind::If)
    } else if bytes_equal(keyword, "endlockguard".as_bytes()) {
        Some(BlockKind::LockGuard)
    } else if bytes_equal(keyword, "endstate".as_bytes()) {
        Some(BlockKind::State)
    } else if bytes_equal(keyword, "endstruct".as_bytes()) {
        Some(BlockKind::Struct)
    } else if bytes_equal(keyword, "endtrylockguard".as_bytes()) {
        Some(BlockKind::TryLockGuard)
    } else if bytes_equal(keyword, "endwhile".as_bytes()) {
        Some(BlockKind::While)
    } else {
        None
    }
}

/* ---------- Masking of strings and comments ---------- */

#[derive(Clone, Copy, Debug, PartialEq, Eq, Structural)]
pub enum SanitizeState {
    Code,
    DocumentationComment,
    LineComment,
    SlashComment,
    String,
}

/// Replaces one byte with a space unless it is a line break.
pub open spec fn mask_at(out: Seq<u8>, i: int) -> Seq<u8> {
    if 0 <= i < out.len() && out[i] != 13 && out[i] != 10 {
        out.update(i, 32)
    } else {
        out
    }
}

/// The masking automaton: from byte `index` in `state`, with `out` masked so
/// far, the final masked bytes.
pub open spec fn sanitize_from(src: Seq<u8>, index: int, state: SanitizeState, out: Seq<u8>) -> Seq<u8>
    decreases src.len() - index,
{
    if index < 0 || index >= src.len() {
        out
    } else {
        match state {
            SanitizeState::Code => {
                if src[index] == 34 {
                    sanitize_from(src, index + 1, SanitizeState::String, mask_at(out, index))
                } else if src[index] == 123 {
                    sanitize_from(src, index + 1, SanitizeState::DocumentationComment, mask_at(out, index))
                } else if src[index] == 59 && index + 1 < src.len() && src[index + 1] == 47 {
                    sanitize_from(src, index + 2, SanitizeState::SlashComment, mask_at(mask_at(out, index), index + 1))
                } else if src[index] == 59 {
                    sanitize_from(src, index + 1, SanitizeState::LineComment, mask_at(out, index))
                } else {
                    sanitize_from(src, index + 1, SanitizeState::Code, out)
                }
            },
            SanitizeState::String => {
                if src[index] == 92 {
                    let next = if index + 2 <= src.len() { index + 2 } else { src.len() as int };
                    sanitize_from(src, next, SanitizeState::String, mask_at(mask_at(out, index), index + 1))
                } else if src[index] == 34 {
                    sanitize_from(src, index + 1, SanitizeState::Code, mask_at(out, index))
                } else {
                    sanitize_from(src, index + 1, SanitizeState::String, mask_at(out, index))
                }
            },
            SanitizeState::DocumentationComment => {
                let next = if src[index] == 125 { SanitizeState::Code } else { SanitizeState::DocumentationComment };
                sanitize_from(src, index + 1, next, mask_at(out, index))
            },
            SanitizeState::SlashComment => {
                if src[index] == 47 && index + 1 < src.len() && src[index + 1] == 59 {
                    sanitize_from(src, index + 2, SanitizeState::Code, mask_at(mask_at(out, index), index + 1))
                } else {
                    sanitize_from(src, index + 1, SanitizeState::SlashComment, mask_at(out, index))
                }
            },
            SanitizeState::LineComment => {
                if src[index] == 10 {
                    sanitize_from(src, index + 1, SanitizeState::Code, out)
                } else {
                    sanitize_from(src, index + 1, SanitizeState::LineComment, mask_at(out, index))
                }
            },
        }
    }
}

/// The source with strings, line comments, `{...}` documentation comments and
/// `;/ ... /;` block comments replaced by spaces, line breaks kept.
pub open spec fn sanitized(src: Seq<u8>) -> Seq<u8> {
    sanitize_from(src, 0, SanitizeState::Code, src)
}

pub fn mask(output: &mut Vec<u8>, index: usize)
    ensures
        final(output)@ == mask_at(old(output)@, index as int),
{
    if index < output.len() {
        let byte = output[index];
        if byte != 13 && byte != 10 {
            output.set(index, 32);
        }
    }
}

/// Masks strings and comments so keywords inside them are ignored.
pub fn sanitize(source: &[u8]) -> (out: Vec<u8>)
    ensures
        out@ == sanitized(source@),
{
    let mut output = copy_range(source, 0, source.len());
    assert(source@.subrange(0, source@.len() as int) =~= source@);
    let mut state = SanitizeState::Code;
    let mut index: usize = 0;
    let n = source.len();
    while index < n
        invariant
            n == source@.len(),
            output@.len() == n,
            sanitize_from(source@, index as int, state, output@) == sanitized(source@),
        decreases n - index,
    {
        match state {
            SanitizeState::Code => {
                let b = source[index];
                if b == 34 {
                    mask(&mut output, index);
                    state = SanitizeState::String;
                    index = index + 1;
                } else if b == 123 {
                    mask(&mut output, index);
                    state = SanitizeState::DocumentationComment;
                    index = index + 1;
                } else if b == 59 && index + 1 < n && source[index + 1] == 47 {
                    mask(&mut output, index);
                    mask(&mut output, index + 1);
                    state = SanitizeState::SlashComment;
                    index = index + 2;
                } else if b == 59 {
                    mask(&mut output, index);
                    state = SanitizeState::LineComment;
                    index = index + 1;
                } else {
                    index = index + 1;
                }
            },
            SanitizeState::String => {
                if source[index] == 92 {
                    mask(&mut output, index);
                    if index + 1 < n {
                        mask(&mut output, index + 1);
                    }
                    if n - index < 2 {
                        index = n;
                    } else {
                        index = index + 2;
                    }
                } else if source[index] == 34 {
                    mask(&mut output, index);
                    state = SanitizeState::Code;
                    index = index + 1;
                } else {
                    mask(&mut output, index);
                    index = index + 1;
                }
            },
            SanitizeState::DocumentationComment => {
                let is_end = source[index] == 125;
                mask(&mut output, index);
                index = index + 1;
                if is_end {
                    state = SanitizeState::Code;
                }
            },
            SanitizeState::SlashComment => {
                if source[index] == 47 && index + 1 < n && source[index + 1] == 59 {
                    mask(&mut output, index);
                    mask(&mut output, index + 1);
                    state = SanitizeState::Code;
                    index = index + 2;
                } else {
                    mask(&mut output, index);
                    index = index + 1;
                }
            },
            SanitizeState::LineComment => {
                if source[index] == 10 {
                    state = SanitizeState::Code;
                } else {
                    mask(&mut output, index);
                }
                index = index + 1;
            },
        }
    }
    output
}

/// Masking keeps every byte or replaces it with a space, and never touches a
/// line break.
pub open spec fn masks_of(src: Seq<u8>, out: Seq<u8>) -> bool {
    &&& out.len() == src.len()
    &&& forall|i: int|
        0 <= i < src.len() ==> (#[trigger] out[i] == src[i] || (out[i] == 32 && src[i] != 10
            && src[i] != 13))
}

proof fn lemma_sanitize_from_masks(src: Seq<u8>, index: int, state: SanitizeState, out: Seq<u8>)
    requires
        masks_of(src, out),
    ensures
        masks_of(src, sanitize_from(src, index, state, out)),
    decreases src.len() - index,
{
    if index < 0 || index >= src.len() {
    } else {
        assert forall|o: Seq<u8>, i: int| masks_of(src, o) implies #[trigger] masks_of(src, mask_at(o, i)) by {
            let m = mask_at(o, i);
            assert forall|k: int| 0 <= k < src.len() implies (#[trigger] m[k] == src[k] || (m[k] == 32 && src[k] != 10 && src[k] != 13)) by {
                assert(o[k] == src[k] || (o[k] == 32 && src[k] != 10 && src[k] != 13));
            }
        }
        match state {
            SanitizeState::Code => {
                if src[index] == 34 {
                    lemma_sanitize_from_masks(src, index + 1, SanitizeState::String, mask_at(out, index));
                } else if src[index] == 123 {
                    lemma_sanitize_from_masks(src, index + 1, SanitizeState::DocumentationComment, mask_at(out, index));
                } else if src[index] == 59 && index + 1 < src.len() && src[index + 1] == 47 {
                    assert(masks_of(src, mask_at(out, index)));
                    lemma_sanitize_from_masks(src, index + 2, SanitizeState::SlashComment, mask_at(mask_at(out, index), index + 1));
                } else if src[index] == 59 {
                    lemma_sanitize_from_masks(src, index + 1, SanitizeState::LineComment, mask_at(out, index));
                } else {
                    lemma_sanitize_from_masks(src, index + 1, SanitizeState::Code, out);
                }
            },
            SanitizeState::String => {
                if src[index] == 92 {
                    assert(masks_of(src, mask_at(out, index)));
                    let next = if index + 2 <= src.len() { index + 2 } else { src.len() as int };
                    lemma_sanitize_from_masks(src, next, SanitizeState::String, mask_at(mask_at(out, index), index + 1));
                } else if src[index] == 34 {
                    lemma_sanitize_from_masks(src, index + 1, SanitizeState::Code, mask_at(out, index));
                } else {
                    lemma_sanitize_from_masks(src, index + 1, SanitizeState::String, mask_at(out, index));
                }
            },
            SanitizeState::DocumentationComment => {
                let next = if src[index] == 125 { SanitizeState::Code } else { SanitizeState::DocumentationComment };
                lemma_sanitize_from_masks(src, index + 1, next, mask_at(out, index));
            },
            SanitizeState::SlashComment => {
                if src[index] == 47 && index + 1 < src.len() && src[index + 1] == 59 {
                    assert(masks_of(src, mask_at(out, index)));
                    lemma_sanitize_from_masks(src, index + 2, SanitizeState::Code, mask_at(mask_at(out, index), index + 1));
                } else {
                    lemma_sanitize_from_masks(src, index + 1, SanitizeState::SlashComment, mask_at(out, index));
                }
            },
            SanitizeState::LineComment => {
                if src[index] == 10 {
                    lemma_sanitize_from_masks(src, index + 1, SanitizeState::Code, out);
                } else {
                    lemma_sanitize_from_masks(src, index + 1, SanitizeState::LineComment, mask_at(out, index));
                }
            },
        }
    }
}

/// Masking preserves the length and every line break of the source, and any
/// byte it changes becomes a space: byte offsets computed on the masked text
/// are offsets into the source.
pub proof fn law_sanitize_preserves_layout(src: Seq<u8>)
    ensures
        masks_of(src, sanitized(src)),
{
    lemma_sanitize_from_masks(src, 0, SanitizeState::Code, src);
}

/// A byte that opens a string or a comment: `"`, `{` or `;`.
pub open spec fn opens_masked_text(b: u8) -> bool {
    b == 34 || b == 123 || b == 59
}

proof fn lemma_sanitize_from_clears(src: Seq<u8>, index: int, state: SanitizeState, out: Seq<u8>)
    requires
        out.len() == src.len(),
        0 <= index,
        forall|k: int| index <= k < src.len() ==> out[k] == src[k],
        forall|k: int| 0 <= k < index && k < src.len() ==> !opens_masked_text(#[trigger] out[k]),
    ensures
        sanitize_from(src, index, state, out).len() == src.len(),
        forall|k: int| 0 <= k < src.len() ==> !opens_masked_text(#[trigger] sanitize_from(src, index, state, out)[k]),
    decreases src.len() - index,
{
    if index >= src.len() {
    } else {
        assert forall|o: Seq<u8>, i: int|
            o.len() == src.len() && 0 <= i < src.len() implies (#[trigger] mask_at(o, i)).len() == src.len()
                && (mask_at(o, i)[i] == 32 || mask_at(o, i)[i] == 10 || mask_at(o, i)[i] == 13)
                && forall|k: int| 0 <= k < src.len() && k != i ==> mask_at(o, i)[k] == o[k] by {
        }
        match state {
            SanitizeState::Code => {
                if src[index] == 34 {
                    lemma_sanitize_from_clears(src, index + 1, SanitizeState::String, mask_at(out, index));
                } else if src[index] == 123 {
                    lemma_sanitize_from_clears(src, index + 1, SanitizeState::DocumentationComment, mask_at(out, index));
                } else if src[index] == 59 && index + 1 < src.len() && src[index + 1] == 47 {
                    lemma_sanitize_from_clears(src, index + 2, SanitizeState::SlashComment, mask_at(mask_at(out, index), index + 1));
                } else if src[index] == 59 {
                    lemma_sanitize_from_clears(src, index + 1, SanitizeState::LineComment, mask_at(out, index));
                } else {
                    lemma_sanitize_from_clears(src, index + 1, SanitizeState::Code, out);
                }
            },
            SanitizeState::String => {
                if src[index] == 92 {
                    let next = if index + 2 <= src.len() { index + 2 } else { src.len() as int };
                    let m = mask_at(out, index);
                    if index + 1 < src.len() {
                        lemma_sanitize_from_clears(src, next, SanitizeState::String, mask_at(m, index + 1));
                    } else {
                        assert(mask_at(m, index + 1) == m);
                        lemma_sanitize_from_clears(src, next, SanitizeState::String, mask_at(m, index + 1));
                    }
                } else if src[index] == 34 {
                    lemma_sanitize_from_clears(src, index + 1, SanitizeState::Code, mask_at(out, index));
                } else {
                    lemma_sanitize_from_clears(src, index + 1, SanitizeState::String, mask_at(out, index));
                }
            },
            SanitizeState::DocumentationComment => {
                let next = if src[index] == 125 { SanitizeState::Code } else { SanitizeState::DocumentationComment };
                lemma_sanitize_from_clears(src, index + 1, next, mask_at(out, index));
            },
            SanitizeState::SlashComment => {
                if src[index] == 47 && index + 1 < src.len() && src[index + 1] == 59 {
                    lemma_sanitize_from_clears(src, index + 2, SanitizeState::Code, mask_at(mask_at(out, index), index + 1));
                } else {
                    lemma_sanitize_from_clears(src, index + 1, SanitizeState::SlashComment, mask_at(out, index));
                }
            },
            SanitizeState::LineComment => {
                if src[index] == 10 {
                    lemma_sanitize_from_clears(src, index + 1, SanitizeState::Code, out);
                } else {
                    lemma_sanitize_from_clears(src, index + 1, SanitizeState::LineComment, mask_at(out, index));
                }
            },
        }
    }
}

proof fn lemma_sanitize_from_plain(src: Seq<u8>, index: int, out: Seq<u8>)
    requires
        0 <= index,
        forall|k: int| index <= k < src.len() ==> !opens_masked_text(#[trigger] src[k]),
    ensures
        sanitize_from(src, index, SanitizeState::Code, out) == out,
    decreases src.len() - index,
{
    if index < src.len() {
        lemma_sanitize_from_plain(src, index + 1, out);
    }
}

/// Masking leaves no byte that opens a string or a comment, so masking the
/// masked text again changes nothing.
pub proof fn law_sanitize_is_idempotent(src: Seq<u8>)
    ensures
        forall|k: int| 0 <= k < sanitized(src).len() ==> !opens_masked_text(#[trigger] sanitized(src)[k]),
        sanitized(sanitized(src)) == sanitized(src),
{
    lemma_sanitize_from_clears(src, 0, SanitizeState::Code, src);
    lemma_sanitize_from_plain(sanitized(src), 0, sanitized(src));
}

} // verus!

verus! {

/* ---------- Tokens ---------- */

/// End of the identifier run that continues at `i`.
pub open spec fn word_end(line: Seq<u8>, i: int) -> int
    decreases line.len() - i,
{
    if 0 <= i < line.len() && is_word(line[i]) {
        word_end(line, i + 1)
    } else {
        i
    }
}

pub proof fn lemma_word_end(line: Seq<u8>, i: int)
    requires
        0 <= i <= line.len(),
    ensures
        i <= word_end(line, i) <= line.len(),
        forall|k: int| i <= k < word_end(line, i) ==> is_word(#[trigger] line[k]),
        word_end(line, i) == line.len() || !is_word(line[word_end(line, i)]),
    decreases line.len() - i,
{
    if i < line.len() && is_word(line[i]) {
        lemma_word_end(line, i + 1);
    }
}

/// A word of a statement: its lowercase text and its byte range in the source.
pub struct TokenView {
    pub normalized: Seq<u8>,
    pub range: ByteRange,
}

/// The words of `line` from byte `index` on, where `base` is the source offset
/// of the line: maximal runs of `[A-Za-z0-9_]` that start with a letter or `_`.
pub open spec fn scan_tokens(line: Seq<u8>, base: int, index: int) -> Seq<TokenView>
    decreases line.len() - index,
{
    if index < 0 || index >= line.len() {
        seq![]
    } else if !is_word_start(line[index]) {
        scan_tokens(line, base, index + 1)
    } else {
        let end = word_end(line, index + 1);
        proof {
            lemma_word_end(line, index + 1);
        }
        seq![TokenView {
            normalized: lower_seq(line.subrange(index, end)),
            range: ByteRange { start: (base + index) as usize, end: (base + end) as usize },
        }] + scan_tokens(line, base, end)
    }
}

/// A word of a statement with its lowercase text.
pub struct Token {
    pub normalized: Vec<u8>,
    pub range: ByteRange,
}

impl View for Token {
    type V = TokenView;

    open spec fn view(&self) -> TokenView {
        TokenView { normalized: self.normalized@, range: self.range }
    }
}

pub open spec fn token_views(tokens: Seq<Token>) -> Seq<TokenView> {
    tokens.map_values(|t: Token| t@)
}

/// Splits a statement into lowercase words with source byte ranges.
pub fn tokens(line: &[u8], line_start: usize) -> (result: Vec<Token>)
    requires
        line_start + line@.len() <= usize::MAX,
    ensures
        token_views(result@) == scan_tokens(line@, line_start as int, 0),
{
    let mut result: Vec<Token> = Vec::new();
    let mut index: usize = 0;
    let n = line.len();
    while index < n
        invariant
            n == line@.len(),
            line_start + n <= usize::MAX,
            0 <= index <= n,
            token_views(result@) + scan_tokens(line@, line_start as int, index as int) == scan_tokens(
                line@,
                line_start as int,
                0,
            ),
        decreases n - index,
    {
        if !(is_alpha_byte(line[index]) || line[index] == 95) {
            index = index + 1;
            continue;
        }
        let start = index;
        index = index + 1;
        proof {
            lemma_word_end(line@, index as int);
        }
        while index < n && is_word_byte(line[index])
            invariant
                n == line@.len(),
                start < index <= n,
                word_end(line@, start as int + 1) == word_end(line@, index as int),
            decreases n - index,
        {
            index = index + 1;
        }
        let token = Token {
            normalized: lowercase_range(line, start, index),
            range: ByteRange { start: line_start + start, end: line_start + index },
        };
        let ghost before = token_views(result@);
        result.push(token);
        assert(token_views(result@) =~= before.push(token@));
    }
    assert(token_views(result@) + scan_tokens(line@, line_start as int, index as int) =~= token_views(result@));
    result
}

/* ---------- Opening keywords ---------- */

/// An optional index as a mathematical integer.
pub open spec fn as_int_option(r: Option<usize>) -> Option<int> {
    match r {
        Some(k) => Some(k as int),
        None => None,
    }
}

/// Position of the first `(` at or after `i`, or the length.
pub open spec fn first_paren(line: Seq<u8>, i: int) -> int
    decreases line.len() - i,
{
    if i < 0 || i >= line.len() {
        line.len() as int
    } else if line[i] == 40 {
        i
    } else {
        first_paren(line, i + 1)
    }
}

/// Index of the first token satisfying `p`, searching from `i`.
pub open spec fn first_match(tokens: Seq<TokenView>, p: spec_fn(TokenView) -> bool, i: int) -> Option<int>
    decreases tokens.len() - i,
{
    if i < 0 || i >= tokens.len() {
        None
    } else if p(tokens[i]) {
        Some(i)
    } else {
        first_match(tokens, p, i + 1)
    }
}

pub proof fn lemma_first_match(tokens: Seq<TokenView>, p: spec_fn(TokenView) -> bool, i: int)
    requires
        0 <= i,
    ensures
        first_match(tokens, p, i) matches Some(k) ==> i <= k < tokens.len() && p(tokens[k]) && forall|j: int| i <= j < k ==> !p(#[trigger] tokens[j]),
        first_match(tokens, p, i) is None ==> forall|j: int| i <= j < tokens.len() ==> !p(#[trigger] tokens[j]),
    decreases tokens.len() - i,
{
    if i < tokens.len() && !p(tokens[i]) {
        lemma_first_match(tokens, p, i + 1);
    }
}

/// A `function` keyword that precedes the first `(` and is not a member name.
pub open spec fn is_function_token(line: Seq<u8>, line_start: int, paren: int, t: TokenView) -> bool {
    let relative = t.range.start - line_start;
    &&& t.normalized == "function".spec_bytes()
    &&& relative <= paren
    &&& (relative == 0 || line[relative - 1] != 46)
}

pub open spec fn function_token_of(line: Seq<u8>, line_start: int, tokens: Seq<TokenView>) -> Option<int> {
    first_match(tokens, |t: TokenView| is_function_token(line, line_start, first_paren(line, 0), t), 0)
}

pub open spec fn has_native(tokens: Seq<TokenView>) -> bool {
    exists|i: int| 0 <= i < tokens.len() && #[trigger] tokens[i].normalized == "native".spec_bytes()
}

/// The block kind a statement opens.
pub open spec fn opening_kind_of(line: Seq<u8>, line_start: int, tokens: Seq<TokenView>) -> Option<BlockKind> {
    if tokens.len() == 0 {
        None
    } else {
        let first = tokens[0].normalized;
        if first == "if".spec_bytes() {
            Some(BlockKind::If)
        } else if first == "while".spec_bytes() {
            Some(BlockKind::While)
        } else if first == "event".spec_bytes() {
            if has_native(tokens) { None } else { Some(BlockKind::Event) }
        } else if first == "state".spec_bytes() {
            Some(BlockKind::State)
        } else if first == "auto".spec_bytes() && tokens.len() > 1 && tokens[1].normalized == "state".spec_bytes() {
            Some(BlockKind::State)
        } else if first == "struct".spec_bytes() {
            Some(BlockKind::Struct)
        } else if first == "group".spec_bytes() {
            Some(BlockKind::Group)
        } else if first == "lockguard".spec_bytes() {
            Some(BlockKind::LockGuard)
        } else if first == "trylockguard".spec_bytes() {
            Some(BlockKind::TryLockGuard)
        } else if !has_native(tokens) && function_token_of(line, line_start, tokens).is_some() {
            Some(BlockKind::Function)
        } else {
            None
        }
    }
}

fn token_is(token: &Token, keyword: &str) -> (r: bool)
    ensures
        r == (token@.normalized == keyword.spec_bytes()),
{
    bytes_equal(token.normalized.as_slice(), keyword.as_bytes())
}

fn first_paren_exec(line: &[u8]) -> (r: usize)
    ensures
        r == first_paren(line@, 0),
{
    let mut i: usize = 0;
    while i < line.len()
        invariant
            0 <= i <= line@.len(),
            first_paren(line@, i as int) == first_paren(line@, 0),
        decreases line@.len() - i,
    {
        if line[i] == 40 {
            return i;
        }
        i = i + 1;
    }
    i
}

/// The first `function` keyword that declares a function in this statement.
pub fn function_token(line: &[u8], line_start: usize, tokens: &Vec<Token>) -> (r: Option<usize>)
    requires
        forall|i: int| 0 <= i < tokens@.len() ==> line_start <= #[trigger] tokens@[i].range.start < line_start + line@.len(),
    ensures
        as_int_option(r) == function_token_of(line@, line_start as int, token_views(tokens@)),
{
    let paren = first_paren_exec(line);
    let ghost views = token_views(tokens@);
    let ghost p = |t: TokenView| is_function_token(line@, line_start as int, first_paren(line@, 0), t);
    let mut i: usize = 0;
    while i < tokens.len()
        invariant
            0 <= i <= tokens@.len(),
            views == token_views(tokens@),
            paren == first_paren(line@, 0),
            p == (|t: TokenView| is_function_token(line@, line_start as int, first_paren(line@, 0), t)),
            forall|j: int| 0 <= j < tokens@.len() ==> line_start <= #[trigger] tokens@[j].range.start < line_start + line@.len(),
            first_match(views, p, i as int) == first_match(views, p, 0),
        decreases tokens@.len() - i,
    {
        let token = &tokens[i];
        let relative = token.range.start - line_start;
        let is_keyword = token_is(token, "function");
        if is_keyword && relative <= paren && (relative == 0 || line[relative - 1] != 46) {
            assert(p(views[i as int]));
            return Some(i);
        }
        assert(!p(views[i as int]));
        i = i + 1;
    }
    None
}

fn contains_native(tokens: &Vec<Token>) -> (r: bool)
    ensures
        r == has_native(token_views(tokens@)),
{
    let mut i: usize = 0;
    while i < tokens.len()
        invariant
            0 <= i <= tokens@.len(),
            forall|j: int| 0 <= j < i ==> tokens@[j]@.normalized != "native".spec_bytes(),
        decreases tokens@.len() - i,
    {
        if token_is(&tokens[i], "native") {
            assert(token_views(tokens@)[i as int].normalized == "native".spec_bytes());
            return true;
        }
        i = i + 1;
    }
    assert forall|j: int| 0 <= j < token_views(tokens@).len() implies #[trigger] token_views(tokens@)[j].normalized != "native".spec_bytes() by {
        assert(token_views(tokens@)[j] == tokens@[j]@);
    }
    false
}

/// The block kind that a statement opens, if any.
pub fn opening_kind(line: &[u8], line_start: usize, tokens: &Vec<Token>) -> (r: Option<BlockKind>)
    requires
        forall|i: int| 0 <= i < tokens@.len() ==> line_start <= #[trigger] tokens@[i].range.start < line_start + line@.len(),
    ensures
        r == opening_kind_of(line@, line_start as int, token_views(tokens@)),
{
    if tokens.len() == 0 {
        return None;
    }
    let ghost views = token_views(tokens@);
    assert(views[0] == tokens@[0]@);
    let first = &tokens[0];
    let native = contains_native(tokens);
    if token_is(first, "if") {
        Some(BlockKind::If)
    } else if token_is(first, "while") {
        Some(BlockKind::While)
    } else if token_is(first, "event") {
        if native { None } else { Some(BlockKind::Event) }
    } else if token_is(first, "state") {
        Some(BlockKind::State)
    } else if token_is(first, "auto") && tokens.len() > 1 && token_is(&tokens[1], "state") {
        assert(views[1] == tokens@[1]@);
        Some(BlockKind::State)
    } else if token_is(first, "struct") {
        Some(BlockKind::Struct)
    } else if token_is(first, "group") {
        Some(BlockKind::Group)
    } else if token_is(first, "lockguard") {
        Some(BlockKind::LockGuard)
    } else if token_is(first, "trylockguard") {
        Some(BlockKind::TryLockGuard)
    } else {
        if tokens.len() > 1 && token_is(first, "auto") {
            assert(views[1] == tokens@[1]@);
        }
        if !native && function_token(line, line_start, tokens).is_some() {
            Some(BlockKind::Function)
        } else {
            None
        }
    }
}

/// Index of the token that names the opening keyword of `kind`.
pub open spec fn opening_token_of(kind: BlockKind, tokens: Seq<TokenView>) -> Option<int> {
    first_match(tokens, |t: TokenView| t.normalized == kind.opening_bytes(), 0)
}

/// The token holding the keyword that opens a block of `kind`.
pub fn opening_token(kind: BlockKind, tokens: &Vec<Token>) -> (r: Option<usize>)
    ensures
        as_int_option(r) == opening_token_of(kind, token_views(tokens@)),
{
    let keyword = match kind {
        BlockKind::Event => "event",
        BlockKind::Function => "function",
        BlockKind::Group => "group",
        BlockKind::If => "if",
        BlockKind::LockGuard => "lockguard",
        BlockKind::State => "state",
        BlockKind::Struct => "struct",
        BlockKind::TryLockGuard => "trylockguard",
        BlockKind::While => "while",
    };
    let ghost views = token_views(tokens@);
    let ghost p = |t: TokenView| t.normalized == kind.opening_bytes();
    let mut i: usize = 0;
    while i < tokens.len()
        invariant
            0 <= i <= tokens@.len(),
            views == token_views(tokens@),
            keyword.spec_bytes() == kind.opening_bytes(),
            p == (|t: TokenView| t.normalized == kind.opening_bytes()),
            first_match(views, p, i as int) == first_match(views, p, 0),
        decreases tokens@.len() - i,
    {
        if token_is(&tokens[i], keyword) {
            assert(p(views[i as int]));
            return Some(i);
        }
        assert(!p(views[i as int]));
        i = i + 1;
    }
    None
}

} // verus!

verus! {

/* ---------- Block matching ---------- */

/// A block opened by a keyword and not yet closed.
#[derive(Clone, Copy, Debug, PartialEq, Eq, Structural)]
pub struct OpenBlock {
    pub kind: BlockKind,
    pub range: ByteRange,
}

/// What a structural issue reports.
#[derive(Clone, Copy, Debug, PartialEq, Eq, Structural)]
pub enum StructuralIssueKind {
    /// A closing keyword is missing; `before` names the closer at which the
    /// omission became certain.
    MissingClosingKeyword { missing: BlockKind, before: Option<BlockKind> },
    /// A closing keyword has no open block of its kind.
    UnexpectedClosingKeyword { kind: BlockKind },
}

/// A precise structural problem discovered independently of parser recovery.
#[derive(Clone, Copy, Debug, PartialEq, Eq, Structural)]
pub struct StructuralIssue {
    /// UTF-8 byte range to underline.
    pub range: ByteRange,
    pub kind: StructuralIssueKind,
}

impl StructuralIssue {
    pub open spec fn code_text(self) -> Seq<char> {
        match self.kind {
            StructuralIssueKind::MissingClosingKeyword { .. } => "missing-closing-keyword"@,
            StructuralIssueKind::UnexpectedClosingKeyword { .. } => "unexpected-closing-keyword"@,
        }
    }

    pub open spec fn message_text(self) -> Seq<char> {
        match self.kind {
            StructuralIssueKind::MissingClosingKeyword { missing, before } => match before {
                Some(closer) => "Missing "@ + missing.closing_text() + " before "@ + closer.closing_text(),
                None => "Missing "@ + missing.closing_text(),
            },
            StructuralIssueKind::UnexpectedClosingKeyword { kind } => "Unexpected "@ + kind.closing_text(),
        }
    }

    /// Stable diagnostic identifier.
    pub fn code(&self) -> (r: &'static str)
        ensures
            r@ == self.code_text(),
    {
        match self.kind {
            StructuralIssueKind::MissingClosingKeyword { .. } => "missing-closing-keyword",
            StructuralIssueKind::UnexpectedClosingKeyword { .. } => "unexpected-closing-keyword",
        }
    }

    /// Closing keyword that the diagnostic reports as missing, when applicable.
    pub fn missing_keyword(&self) -> (r: Option<&'static str>)
        ensures
            match self.kind {
                StructuralIssueKind::MissingClosingKeyword { missing, .. } => (r matches Some(k) && k@ == missing.closing_text()),
                StructuralIssueKind::UnexpectedClosingKeyword { .. } => r is None,
            },
    {
        match self.kind {
            StructuralIssueKind::MissingClosingKeyword { missing, .. } => Some(missing.closing_keyword()),
            StructuralIssueKind::UnexpectedClosingKeyword { .. } => None,
        }
    }

    /// Human-readable explanation.
    pub fn message(&self) -> (r: String)
        ensures
            r@ == self.message_text(),
    {
        match self.kind {
            StructuralIssueKind::MissingClosingKeyword { missing, before } => {
                let mut text = String::from_str("Missing ");
                text.append(missing.closing_keyword());
                match before {
                    Some(closer) => {
                        text.append(" before ");
                        text.append(closer.closing_keyword());
                    },
                    None => {},
                }
                text
            },
            StructuralIssueKind::UnexpectedClosingKeyword { kind } => {
                let mut text = String::from_str("Unexpected ");
                text.append(kind.closing_keyword());
                text
            },
        }
    }
}

/// Index of the innermost open block of `kind` among the first `i` entries.
pub open spec fn innermost_of_kind(stack: Seq<OpenBlock>, kind: BlockKind, i: int) -> Option<int>
    decreases i,
{
    if i <= 0 {
        None
    } else if stack[i - 1].kind == kind {
        Some(i - 1)
    } else {
        innermost_of_kind(stack, kind, i - 1)
    }
}

proof fn lemma_innermost_of_kind(stack: Seq<OpenBlock>, kind: BlockKind, i: int)
    requires
        i <= stack.len(),
    ensures
        innermost_of_kind(stack, kind, i) matches Some(m) ==> 0 <= m < i && stack[m].kind == kind,
    decreases i,
{
    if i > 0 && stack[i - 1].kind != kind {
        lemma_innermost_of_kind(stack, kind, i - 1);
    }
}

/// Closing a block of `kind` at `closer`: the blocks opened inside the matching
/// one are reported as missing their closers, innermost first; without a
/// matching block the closer is unexpected.
pub open spec fn close_spec(kind: BlockKind, closer: ByteRange, stack: Seq<OpenBlock>, issues: Seq<StructuralIssue>) -> (Seq<OpenBlock>, Seq<StructuralIssue>) {
    match innermost_of_kind(stack, kind, stack.len() as int) {
        None => (
            stack,
            issues.push(StructuralIssue { range: closer, kind: StructuralIssueKind::UnexpectedClosingKeyword { kind } }),
        ),
        Some(m) => (
            stack.subrange(0, m),
            issues + Seq::new(
                (stack.len() - 1 - m) as nat,
                |j: int| StructuralIssue {
                    range: closer,
                    kind: StructuralIssueKind::MissingClosingKeyword { missing: stack[stack.len() - 1 - j].kind, before: Some(kind) },
                },
            ),
        ),
    }
}

pub fn close_block(closing_kind: BlockKind, closing_token: &Token, stack: &mut Vec<OpenBlock>, issues: &mut Vec<StructuralIssue>)
    ensures
        (final(stack)@, final(issues)@) == close_spec(closing_kind, closing_token.range, old(stack)@, old(issues)@),
{
    let ghost stack0 = stack@;
    let ghost issues0 = issues@;
    let mut i = stack.len();
    while i > 0
        invariant
            stack@ == stack0,
            issues@ == issues0,
            0 <= i <= stack0.len(),
            innermost_of_kind(stack0, closing_kind, i as int) == innermost_of_kind(stack0, closing_kind, stack0.len() as int),
        ensures
            stack@ == stack0,
            issues@ == issues0,
            0 <= i <= stack0.len(),
            innermost_of_kind(stack0, closing_kind, stack0.len() as int) == if i == 0 { None } else { Some(i - 1) },
        decreases i,
    {
        if stack[i - 1].kind == closing_kind {
            break;
        }
        i = i - 1;
    }
    if i == 0 {
        issues.push(StructuralIssue {
            range: closing_token.range,
            kind: StructuralIssueKind::UnexpectedClosingKeyword { kind: closing_kind },
        });
        return;
    }
    let matching = i - 1;
    proof {
        lemma_innermost_of_kind(stack0, closing_kind, stack0.len() as int);
    }
    while stack.len() - 1 > matching
        invariant
            matching < stack@.len() <= stack0.len(),
            stack@ == stack0.subrange(0, stack@.len() as int),
            issues@ == issues0 + Seq::new(
                (stack0.len() - stack@.len()) as nat,
                |j: int| StructuralIssue {
                    range: closing_token.range,
                    kind: StructuralIssueKind::MissingClosingKeyword { missing: stack0[stack0.len() - 1 - j].kind, before: Some(closing_kind) },
                },
            ),
        decreases stack@.len(),
    {
        let unclosed = stack.pop().unwrap();
        let ghost before = issues@;
        issues.push(StructuralIssue {
            range: closing_token.range,
            kind: StructuralIssueKind::MissingClosingKeyword { missing: unclosed.kind, before: Some(closing_kind) },
        });
        assert(issues@ =~= issues0 + Seq::new(
            (stack0.len() - stack@.len()) as nat,
            |j: int| StructuralIssue {
                range: closing_token.range,
                kind: StructuralIssueKind::MissingClosingKeyword { missing: stack0[stack0.len() - 1 - j].kind, before: Some(closing_kind) },
            },
        ));
        assert(stack@ =~= stack0.subrange(0, stack@.len() as int));
    }
    stack.pop();
    assert(stack@ =~= stack0.subrange(0, matching as int));
}

/// One statement: a closer closes its block, an opener pushes its block at the
/// opening keyword (or the first word).
pub open spec fn process_spec(statement: Seq<u8>, start: int, stack: Seq<OpenBlock>, issues: Seq<StructuralIssue>) -> (Seq<OpenBlock>, Seq<StructuralIssue>) {
    let tokens = scan_tokens(statement, start, 0);
    if tokens.len() == 0 {
        (stack, issues)
    } else {
        match closing_kind_of(tokens[0].normalized) {
            Some(kind) => close_spec(kind, tokens[0].range, stack, issues),
            None => match opening_kind_of(statement, start, tokens) {
                Some(kind) => {
                    let keyword = match opening_token_of(kind, tokens) {
                        Some(k) => tokens[k],
                        None => tokens[0],
                    };
                    (stack.push(OpenBlock { kind, range: keyword.range }), issues)
                },
                None => (stack, issues),
            },
        }
    }
}

proof fn lemma_scan_tokens_ranges(line: Seq<u8>, base: int, index: int)
    requires
        0 <= index,
        0 <= base,
        base + line.len() <= usize::MAX,
    ensures
        forall|i: int| 0 <= i < scan_tokens(line, base, index).len() ==> {
            let t = #[trigger] scan_tokens(line, base, index)[i];
            base + index <= t.range.start < t.range.end <= base + line.len()
        },
    decreases line.len() - index,
{
    if index < line.len() {
        if !is_word_start(line[index]) {
            lemma_scan_tokens_ranges(line, base, index + 1);
            assert(scan_tokens(line, base, index) == scan_tokens(line, base, index + 1));
        } else {
            let end = word_end(line, index + 1);
            lemma_word_end(line, index + 1);
            lemma_scan_tokens_ranges(line, base, end);
            assert(scan_tokens(line, base, index)[0].range.start == base + index);
            assert(scan_tokens(line, base, index)[0].range.end == base + end);
            let all = scan_tokens(line, base, index);
            let rest = scan_tokens(line, base, end);
            assert forall|i: int| 0 <= i < all.len() implies {
                let t = #[trigger] all[i];
                base + index <= t.range.start < t.range.end <= base + line.len()
            } by {
                if i > 0 {
                    assert(all[i] == rest[i - 1]);
                }
            }
        }
    }
}

pub fn process_statement(statement: &[u8], statement_start: usize, stack: &mut Vec<OpenBlock>, issues: &mut Vec<StructuralIssue>)
    requires
        statement_start + statement@.len() <= usize::MAX,
    ensures
        (final(stack)@, final(issues)@) == process_spec(statement@, statement_start as int, old(stack)@, old(issues)@),
{
    let tokens = tokens(statement, statement_start);
    proof {
        lemma_scan_tokens_ranges(statement@, statement_start as int, 0);
        assert forall|i: int| 0 <= i < tokens@.len() implies statement_start <= #[trigger] tokens@[i].range.start < statement_start + statement@.len() by {
            assert(token_views(tokens@)[i] == tokens@[i]@);
        }
    }
    if tokens.len() == 0 {
        return;
    }
    let ghost views = token_views(tokens@);
    assert(views[0] == tokens@[0]@);
    if let Some(kind) = closing_kind(tokens[0].normalized.as_slice()) {
        close_block(kind, &tokens[0], stack, issues);
        return;
    }
    if let Some(kind) = opening_kind(statement, statement_start, &tokens) {
        let index = match opening_token(kind, &tokens) {
            Some(k) => k,
            None => 0,
        };
        proof {
            lemma_first_match(views, |t: TokenView| t.normalized == kind.opening_bytes(), 0);
        }
        assert(views[index as int] == tokens@[index as int]@);
        stack.push(OpenBlock { kind, range: tokens[index].range });
    }
}

/* ---------- Statements ---------- */

/// End of the physical line that starts at `pos` (just after its `\n`).
pub open spec fn line_end(s: Seq<u8>, pos: int) -> int
    decreases s.len() - pos,
{
    if pos < 0 || pos >= s.len() {
        s.len() as int
    } else if s[pos] == 10 {
        pos + 1
    } else {
        line_end(s, pos + 1)
    }
}

pub proof fn lemma_line_end(s: Seq<u8>, pos: int)
    requires
        0 <= pos < s.len(),
    ensures
        pos < line_end(s, pos) <= s.len(),
    decreases s.len() - pos,
{
    if s[pos] != 10 {
        if pos + 1 < s.len() {
            lemma_line_end(s, pos + 1);
        } else {
            assert(line_end(s, pos + 1) == s.len());
        }
    }
}

/// Length of the Unicode whitespace character that ends at `end`, or 0.
pub open spec fn whitespace_before(s: Seq<u8>, start: int, end: int) -> int {
    if end - 1 >= start && (s[end - 1] == 32 || (9 <= s[end - 1] && s[end - 1] <= 13)) {
        1
    } else if end - 2 >= start && s[end - 2] == 0xC2 && (s[end - 1] == 0x85 || s[end - 1] == 0xA0) {
        2
    } else if end - 3 >= start && ((s[end - 3] == 0xE1 && s[end - 2] == 0x9A && s[end - 1] == 0x80)
        || (s[end - 3] == 0xE2 && s[end - 2] == 0x80 && ((0x80 <= s[end - 1] && s[end - 1] <= 0x8A)
        || s[end - 1] == 0xA8 || s[end - 1] == 0xA9 || s[end - 1] == 0xAF))
        || (s[end - 3] == 0xE2 && s[end - 2] == 0x81 && s[end - 1] == 0x9F)
        || (s[end - 3] == 0xE3 && s[end - 2] == 0x80 && s[end - 1] == 0x80)) {
        3
    } else {
        0
    }
}

/// End of `s[start..end]` with trailing Unicode whitespace removed.
pub open spec fn trim_end_whitespace(s: Seq<u8>, start: int, end: int) -> int
    decreases end - start,
{
    let w = whitespace_before(s, start, end);
    if w > 0 && end - w >= start {
        trim_end_whitespace(s, start, end - w)
    } else {
        end
    }
}

/// A line whose last non-whitespace character is `\` continues the statement.
pub open spec fn continues(s: Seq<u8>, start: int, end: int) -> bool {
    let trimmed = trim_end_whitespace(s, start, end);
    trimmed > start && s[trimmed - 1] == 92
}

/// The empty range at byte offset `end`, where the text stops.
pub open spec fn end_of_text(end: int) -> ByteRange {
    ByteRange { start: end as usize, end: end as usize }
}

/// Every open block left at the end is missing its closer, innermost first.
/// Each is reported at the end of the text (byte offset `end`), the first
/// point at which the missing closer is certain.
pub open spec fn unclosed_spec(end: int, stack: Seq<OpenBlock>, issues: Seq<StructuralIssue>) -> Seq<StructuralIssue> {
    issues + Seq::new(
        stack.len(),
        |j: int| StructuralIssue {
            range: end_of_text(end),
            kind: StructuralIssueKind::MissingClosingKeyword { missing: stack[stack.len() - 1 - j].kind, before: None },
        },
    )
}

/// The validator over masked text `s` from line `pos`, with the current
/// statement starting at `stmt`.
pub open spec fn validate_from(s: Seq<u8>, pos: int, stmt: int, stack: Seq<OpenBlock>, issues: Seq<StructuralIssue>) -> Seq<StructuralIssue>
    decreases s.len() - pos,
{
    if pos < 0 || pos >= s.len() {
        if 0 <= stmt < s.len() {
            let (stack2, issues2) = process_spec(s.subrange(stmt, s.len() as int), stmt, stack, issues);
            unclosed_spec(s.len() as int, stack2, issues2)
        } else {
            unclosed_spec(s.len() as int, stack, issues)
        }
    } else {
        let end = line_end(s, pos);
        proof {
            lemma_line_end(s, pos);
        }
        if continues(s, pos, end) {
            validate_from(s, end, stmt, stack, issues)
        } else if 0 <= stmt <= end {
            let (stack2, issues2) = process_spec(s.subrange(stmt, end), stmt, stack, issues);
            validate_from(s, end, end, stack2, issues2)
        } else {
            validate_from(s, end, end, stack, issues)
        }
    }
}

/// The structural issues of a Papyrus source, given as UTF-8 bytes.
pub open spec fn validate_spec(source: Seq<u8>) -> Seq<StructuralIssue> {
    validate_from(sanitized(source), 0, 0, seq![], seq![])
}

pub(crate) fn whitespace_before_exec(s: &[u8], start: usize, end: usize) -> (r: usize)
    requires
        start <= end <= s@.len(),
    ensures
        r == whitespace_before(s@, start as int, end as int),
{
    if end - start >= 1 && (s[end - 1] == 32 || (9 <= s[end - 1] && s[end - 1] <= 13)) {
        1
    } else if end - start >= 2 && s[end - 2] == 0xC2 && (s[end - 1] == 0x85 || s[end - 1] == 0xA0) {
        2
    } else if end - start >= 3 && ((s[end - 3] == 0xE1 && s[end - 2] == 0x9A && s[end - 1] == 0x80)
        || (s[end - 3] == 0xE2 && s[end - 2] == 0x80 && ((0x80 <= s[end - 1] && s[end - 1] <= 0x8A)
        || s[end - 1] == 0xA8 || s[end - 1] == 0xA9 || s[end - 1] == 0xAF))
        || (s[end - 3] == 0xE2 && s[end - 2] == 0x81 && s[end - 1] == 0x9F)
        || (s[end - 3] == 0xE3 && s[end - 2] == 0x80 && s[end - 1] == 0x80)) {
        3
    } else {
        0
    }
}

fn line_continues(s: &[u8], start: usize, end: usize) -> (r: bool)
    requires
        start <= end <= s@.len(),
    ensures
        r == continues(s@, start as int, end as int),
{
    let mut trimmed = end;
    loop
        invariant
            start <= trimmed <= end <= s@.len(),
            trim_end_whitespace(s@, start as int, trimmed as int) == trim_end_whitespace(s@, start as int, end as int),
        ensures
            start <= trimmed <= end,
            trimmed == trim_end_whitespace(s@, start as int, end as int),
        decreases trimmed,
    {
        let w = whitespace_before_exec(s, start, trimmed);
        if w > 0 && trimmed - w >= start {
            trimmed = trimmed - w;
        } else {
            break;
        }
    }
    trimmed > start && s[trimmed - 1] == 92
}

fn next_line_end(s: &[u8], pos: usize) -> (r: usize)
    requires
        pos < s@.len(),
    ensures
        r == line_end(s@, pos as int),
        pos < r <= s@.len(),
{
    proof {
        lemma_line_end(s@, pos as int);
    }
    let mut i = pos;
    while i < s.len()
        invariant
            pos <= i <= s@.len(),
            line_end(s@, i as int) == line_end(s@, pos as int),
        decreases s@.len() - i,
    {
        if s[i] == 10 {
            return i + 1;
        }
        i = i + 1;
    }
    i
}

/// Finds mismatched and unclosed Papyrus blocks while ignoring comments and strings.
pub fn validate(source: &str) -> (issues: Vec<StructuralIssue>)
    ensures
        issues@ == validate_spec(source.spec_bytes()),
{
    let masked = sanitize(source.as_bytes());
    let n = masked.len();
    let mut issues: Vec<StructuralIssue> = Vec::new();
    let mut stack: Vec<OpenBlock> = Vec::new();
    let mut pos: usize = 0;
    let mut statement_start: usize = 0;
    while pos < n
        invariant
            n == masked@.len(),
            masked@ == sanitized(source.spec_bytes()),
            statement_start <= pos <= n,
            validate_from(masked@, pos as int, statement_start as int, stack@, issues@) == validate_spec(source.spec_bytes()),
        decreases n - pos,
    {
        let end = next_line_end(masked.as_slice(), pos);
        if !line_continues(masked.as_slice(), pos, end) {
            let statement = &masked.as_slice()[statement_start..end];
            process_statement(statement, statement_start, &mut stack, &mut issues);
            statement_start = end;
        }
        pos = end;
    }
    if statement_start < n {
        let statement = &masked.as_slice()[statement_start..n];
        process_statement(statement, statement_start, &mut stack, &mut issues);
    }
    let ghost final_stack = stack@;
    let ghost issues0 = issues@;
    while stack.len() > 0
        invariant
            stack@.len() <= final_stack.len(),
            stack@ == final_stack.subrange(0, stack@.len() as int),
            issues@ == issues0 + Seq::new(
                (final_stack.len() - stack@.len()) as nat,
                |j: int| StructuralIssue {
                    range: end_of_text(n as int),
                    kind: StructuralIssueKind::MissingClosingKeyword { missing: final_stack[final_stack.len() - 1 - j].kind, before: None },
                },
            ),
        decreases stack@.len(),
    {
        let open = stack.pop().unwrap();
        issues.push(StructuralIssue {
            range: ByteRange { start: n, end: n },
            kind: StructuralIssueKind::MissingClosingKeyword { missing: open.kind, before: None },
        });
        assert(issues@ =~= issues0 + Seq::new(
            (final_stack.len() - stack@.len()) as nat,
            |j: int| StructuralIssue {
                range: end_of_text(n as int),
                kind: StructuralIssueKind::MissingClosingKeyword { missing: final_stack[final_stack.len() - 1 - j].kind, before: None },
            },
        ));
        assert(stack@ =~= final_stack.subrange(0, stack@.len() as int));
    }
    assert(issues@ =~= unclosed_spec(n as int, final_stack, issues0));
    issues
}

} // verus!
