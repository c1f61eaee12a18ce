//! The naming rules that a rename must respect.
use vstd::prelude::*;
use vstd::string::StringSliceAdditionalSpecFns;
use crate::paths::first_index;
use crate::cache::lemma_first_index_bounds;
use crate::text::{
    all_ascii, append_text, copy_range, is_word, is_word_start, is_alpha_byte, is_word_byte,
    owned, same_ignoring_case, str_equal_ignoring_case, string_bytes, string_from_ascii,
};

verus! {

/// A reserved word of Papyrus, which no identifier may spell in any case.
pub open spec fn is_keyword(c: Seq<u8>) -> bool {
    same_ignoring_case(c, "as".spec_bytes())
        || same_ignoring_case(c, "auto".spec_bytes())
        || same_ignoring_case(c, "autoreadonly".spec_bytes())
        || same_ignoring_case(c, "betaonly".spec_bytes())
        || same_ignoring_case(c, "bool".spec_bytes())
        || same_ignoring_case(c, "collapsed".spec_bytes())
        || same_ignoring_case(c, "collapsedonbase".spec_bytes())
        || same_ignoring_case(c, "collapsedonref".spec_bytes())
        || same_ignoring_case(c, "collapseonbase".spec_bytes())
        || same_ignoring_case(c, "collapseonref".spec_bytes())
        || same_ignoring_case(c, "conditional".spec_bytes())
        || same_ignoring_case(c, "const".spec_bytes())
        || same_ignoring_case(c, "customevent".spec_bytes())
        || same_ignoring_case(c, "debugonly".spec_bytes())
        || same_ignoring_case(c, "default".spec_bytes())
        || same_ignoring_case(c, "else".spec_bytes())
        || same_ignoring_case(c, "elseif".spec_bytes())
        || same_ignoring_case(c, "elselockguard".spec_bytes())
        || same_ignoring_case(c, "elsetrylockguard".spec_bytes())
        || same_ignoring_case(c, "endevent".spec_bytes())
        || same_ignoring_case(c, "endfunction".spec_bytes())
        || same_ignoring_case(c, "endgroup".spec_bytes())
        || same_ignoring_case(c, "endif".spec_bytes())
        || same_ignoring_case(c, "endlockguard".spec_bytes())
        || same_ignoring_case(c, "endproperty".spec_bytes())
        || same_ignoring_case(c, "endstate".spec_bytes())
        || same_ignoring_case(c, "endstruct".spec_bytes())
        || same_ignoring_case(c, "endtrylockguard".spec_bytes())
        || same_ignoring_case(c, "endwhile".spec_bytes())
        || same_ignoring_case(c, "event".spec_bytes())
        || same_ignoring_case(c, "extends".spec_bytes())
        || same_ignoring_case(c, "false".spec_bytes())
        || same_ignoring_case(c, "float".spec_bytes())
        || same_ignoring_case(c, "function".spec_bytes())
        || same_ignoring_case(c, "global".spec_bytes())
        || same_ignoring_case(c, "group".spec_bytes())
        || same_ignoring_case(c, "guard".spec_bytes())
        || same_ignoring_case(c, "hidden".spec_bytes())
        || same_ignoring_case(c, "if".spec_bytes())
        || same_ignoring_case(c, "import".spec_bytes())
        || same_ignoring_case(c, "int".spec_bytes())
        || same_ignoring_case(c, "internal".spec_bytes())
        || same_ignoring_case(c, "is".spec_bytes())
        || same_ignoring_case(c, "lockguard".spec_bytes())
        || same_ignoring_case(c, "mandatory".spec_bytes())
        || same_ignoring_case(c, "native".spec_bytes())
        || same_ignoring_case(c, "new".spec_bytes())
        || same_ignoring_case(c, "none".spec_bytes())
        || same_ignoring_case(c, "private".spec_bytes())
        || same_ignoring_case(c, "property".spec_bytes())
        || same_ignoring_case(c, "protected".spec_bytes())
        || same_ignoring_case(c, "protectsfunctionlogic".spec_bytes())
        || same_ignoring_case(c, "public".spec_bytes())
        || same_ignoring_case(c, "requiresguard".spec_bytes())
        || same_ignoring_case(c, "return".spec_bytes())
        || same_ignoring_case(c, "scriptname".spec_bytes())
        || same_ignoring_case(c, "selfonly".spec_bytes())
        || same_ignoring_case(c, "state".spec_bytes())
        || same_ignoring_case(c, "string".spec_bytes())
        || same_ignoring_case(c, "struct".spec_bytes())
        || same_ignoring_case(c, "true".spec_bytes())
        || same_ignoring_case(c, "trylockguard".spec_bytes())
        || same_ignoring_case(c, "var".spec_bytes())
        || same_ignoring_case(c, "while".spec_bytes())
}

#[verifier::rlimit(40)]
fn is_keyword_text(c: &str) -> (r: bool)
    ensures
        r == is_keyword(c.spec_bytes()),
{
    str_equal_ignoring_case(c, "as")
        || str_equal_ignoring_case(c, "auto")
        || str_equal_ignoring_case(c, "autoreadonly")
        || str_equal_ignoring_case(c, "betaonly")
        || str_equal_ignoring_case(c, "bool")
        || str_equal_ignoring_case(c, "collapsed")
        || str_equal_ignoring_case(c, "collapsedonbase")
        || str_equal_ignoring_case(c, "collapsedonref")
        || str_equal_ignoring_case(c, "collapseonbase")
        || str_equal_ignoring_case(c, "collapseonref")
        || str_equal_ignoring_case(c, "conditional")
        || str_equal_ignoring_case(c, "const")
        || str_equal_ignoring_case(c, "customevent")
        || str_equal_ignoring_case(c, "debugonly")
        || str_equal_ignoring_case(c, "default")
        || str_equal_ignoring_case(c, "else")
        || str_equal_ignoring_case(c, "elseif")
        || str_equal_ignoring_case(c, "elselockguard")
        || str_equal_ignoring_case(c, "elsetrylockguard")
        || str_equal_ignoring_case(c, "endevent")
        || str_equal_ignoring_case(c, "endfunction")
        || str_equal_ignoring_case(c, "endgroup")
        || str_equal_ignoring_case(c, "endif")
        || str_equal_ignoring_case(c, "endlockguard")
        || str_equal_ignoring_case(c, "endproperty")
        || str_equal_ignoring_case(c, "endstate")
        || str_equal_ignoring_case(c, "endstruct")
        || str_equal_ignoring_case(c, "endtrylockguard")
        || str_equal_ignoring_case(c, "endwhile")
        || str_equal_ignoring_case(c, "event")
        || str_equal_ignoring_case(c, "extends")
        || str_equal_ignoring_case(c, "false")
        || str_equal_ignoring_case(c, "float")
        || str_equal_ignoring_case(c, "function")
        || str_equal_ignoring_case(c, "global")
        || str_equal_ignoring_case(c, "group")
        || str_equal_ignoring_case(c, "guard")
        || str_equal_ignoring_case(c, "hidden")
        || str_equal_ignoring_case(c, "if")
        || str_equal_ignoring_case(c, "import")
        || str_equal_ignoring_case(c, "int")
        || str_equal_ignoring_case(c, "internal")
        || str_equal_ignoring_case(c, "is")
        || str_equal_ignoring_case(c, "lockguard")
        || str_equal_ignoring_case(c, "mandatory")
        || str_equal_ignoring_case(c, "native")
        || str_equal_ignoring_case(c, "new")
        || str_equal_ignoring_case(c, "none")
        || str_equal_ignoring_case(c, "private")
        || str_equal_ignoring_case(c, "property")
        || str_equal_ignoring_case(c, "protected")
        || str_equal_ignoring_case(c, "protectsfunctionlogic")
        || str_equal_ignoring_case(c, "public")
        || str_equal_ignoring_case(c, "requiresguard")
        || str_equal_ignoring_case(c, "return")
        || str_equal_ignoring_case(c, "scriptname")
        || str_equal_ignoring_case(c, "selfonly")
        || str_equal_ignoring_case(c, "state")
        || str_equal_ignoring_case(c, "string")
        || str_equal_ignoring_case(c, "struct")
        || str_equal_ignoring_case(c, "true")
        || str_equal_ignoring_case(c, "trylockguard")
        || str_equal_ignoring_case(c, "var")
        || str_equal_ignoring_case(c, "while")
}

/// A Papyrus identifier: a letter or `_`, then letters, digits and `_`.
pub open spec fn spec_is_identifier(v: Seq<u8>) -> bool {
    v.len() > 0 && is_word_start(v[0]) && forall|i: int| 1 <= i < v.len() ==> is_word(#[trigger] v[i])
}

pub fn is_identifier(value: &str) -> (r: bool)
    ensures
        r == spec_is_identifier(value.spec_bytes()),
{
    is_identifier_bytes(value.as_bytes())
}

fn is_identifier_bytes(b: &[u8]) -> (r: bool)
    ensures
        r == spec_is_identifier(b@),
{
    if b.len() == 0 || !(is_alpha_byte(b[0]) || b[0] == 95) {
        return false;
    }
    let mut i: usize = 1;
    while i < b.len()
        invariant
            1 <= i <= b@.len(),
            forall|k: int| 1 <= k < i ==> is_word(#[trigger] b@[k]),
        decreases b@.len() - i,
    {
        if !is_word_byte(b[i]) {
            return false;
        }
        i = i + 1;
    }
    true
}

/// The `:`-separated segments of a name, from position `i` on.
pub open spec fn segments(b: Seq<u8>, i: int) -> Seq<Seq<u8>>
    decreases b.len() - i,
{
    let j = first_index(b, 58, i);
    if i < 0 || i > b.len() {
        Seq::empty()
    } else if j >= b.len() {
        seq![b.subrange(i, b.len() as int)]
    } else {
        proof {
            lemma_first_index_bounds(b, 58, i);
        }
        seq![b.subrange(i, j)] + segments(b, j + 1)
    }
}

/// The index of the first segment that is a reserved word, or the count.
pub open spec fn first_keyword(s: Seq<Seq<u8>>, k: int) -> int
    decreases s.len() - k,
{
    if k < 0 || k >= s.len() {
        s.len() as int
    } else if is_keyword(s[k]) {
        k
    } else {
        first_keyword(s, k + 1)
    }
}

/// The verdict on a new name: the message for a name that is empty, that
/// has namespace separators where only script names may have them, that has
/// a segment which is no identifier, or whose first reserved segment is
/// shown; `None` for an acceptable name.
pub open spec fn name_problem(b: Seq<u8>, qualified: bool) -> Option<Seq<u8>> {
    let s = segments(b, 0);
    if b.len() == 0 {
        Some("The new name cannot be empty.".spec_bytes())
    } else if !qualified && s.len() != 1 {
        Some("Only script names may contain namespace separators (`:`).".spec_bytes())
    } else if exists|k: int| 0 <= k < s.len() && !spec_is_identifier(#[trigger] s[k]) {
        Some("`".spec_bytes() + b + "` is not a valid Papyrus identifier.".spec_bytes())
    } else if first_keyword(s, 0) < s.len() {
        Some("`".spec_bytes() + s[first_keyword(s, 0)] + "` is a reserved Papyrus keyword.".spec_bytes())
    } else {
        None
    }
}

/// The segments of a name, as owned strings when they are all ASCII.
fn split_segments(b: &[u8]) -> (r: Vec<Vec<u8>>)
    ensures
        r@.len() == segments(b@, 0).len(),
        forall|k: int| 0 <= k < r@.len() ==> #[trigger] r@[k]@ == segments(b@, 0)[k],
{
    let mut out: Vec<Vec<u8>> = Vec::new();
    let mut i: usize = 0;
    let mut done = false;
    while !done
        invariant
            0 <= i <= b@.len(),
            !done ==> out@.len() + segments(b@, i as int).len() == segments(b@, 0).len(),
            !done ==> forall|k: int| 0 <= k < out@.len() ==> #[trigger] out@[k]@ == segments(b@, 0)[k],
            !done ==> forall|k: int| 0 <= k < segments(b@, i as int).len() ==> #[trigger] segments(b@, i as int)[k] == segments(b@, 0)[out@.len() + k],
            done ==> out@.len() == segments(b@, 0).len(),
            done ==> forall|k: int| 0 <= k < out@.len() ==> #[trigger] out@[k]@ == segments(b@, 0)[k],
        decreases b@.len() - i + if done {
            0int
        } else {
            1int
        },
    {
        let mut j = i;
        while j < b.len() && b[j] != 58
            invariant
                i <= j <= b@.len(),
                first_index(b@, 58, j as int) == first_index(b@, 58, i as int),
            decreases b@.len() - j,
        {
            j = j + 1;
        }
        proof {
            lemma_first_index_bounds(b@, 58, i as int);
        }
        let piece = copy_range(b, i, j);
        let ghost before = out@;
        out.push(piece);
        if j == b.len() {
            proof {
                assert(segments(b@, i as int) =~= seq![b@.subrange(i as int, j as int)]);
                assert(segments(b@, i as int)[0] == segments(b@, 0)[before.len() as int]);
            }
            done = true;
        } else {
            proof {
                let rest = segments(b@, j + 1);
                assert(segments(b@, i as int) =~= seq![b@.subrange(i as int, j as int)] + rest);
                assert(segments(b@, i as int)[0] == segments(b@, 0)[before.len() as int]);
                assert forall|k: int| 0 <= k < rest.len() implies #[trigger] rest[k] == segments(b@, 0)[out@.len() + k] by {
                    assert(segments(b@, i as int)[k + 1] == rest[k]);
                }
            }
            i = j + 1;
        }
    }
    out
}

/// Checks a new name; `qualified` allows `:` namespace separators, which
/// only script names may have.
pub fn validate_name(name: &str, qualified: bool) -> (r: Result<(), String>)
    ensures
        name_problem(name.spec_bytes(), qualified) is None <==> r is Ok,
        r matches Err(m) ==> string_bytes(m) == name_problem(name.spec_bytes(), qualified).unwrap(),
{
    let b = name.as_bytes();
    if b.len() == 0 {
        return Err(owned("The new name cannot be empty."));
    }
    let segs = split_segments(b);
    let ghost s = segments(b@, 0);
    if !qualified && segs.len() != 1 {
        return Err(owned("Only script names may contain namespace separators (`:`)."));
    }
    let mut k: usize = 0;
    while k < segs.len()
        invariant
            s == segments(name.spec_bytes(), 0),
            name.spec_bytes().len() > 0,
            qualified || s.len() == 1,
            segs@.len() == s.len(),
            forall|m: int| 0 <= m < segs@.len() ==> #[trigger] segs@[m]@ == s[m],
            0 <= k <= s.len(),
            forall|m: int| 0 <= m < k ==> spec_is_identifier(#[trigger] s[m]),
        decreases s.len() - k,
    {
        assert(segs@[k as int]@ == s[k as int]);
        if !is_identifier_bytes(segs[k].as_slice()) {
            assert(!spec_is_identifier(s[k as int]));
            let mut message = owned("`");
            append_text(&mut message, name);
            append_text(&mut message, "` is not a valid Papyrus identifier.");
            return Err(message);
        }
        k = k + 1;
    }
    let mut k: usize = 0;
    while k < segs.len()
        invariant
            s == segments(name.spec_bytes(), 0),
            name.spec_bytes().len() > 0,
            qualified || s.len() == 1,
            segs@.len() == s.len(),
            forall|m: int| 0 <= m < segs@.len() ==> #[trigger] segs@[m]@ == s[m],
            forall|m: int| 0 <= m < s.len() ==> spec_is_identifier(#[trigger] s[m]),
            0 <= k <= s.len(),
            first_keyword(s, k as int) == first_keyword(s, 0),
        decreases s.len() - k,
    {
        assert(segs@[k as int]@ == s[k as int]);
        proof {
            assert forall|m: int| 0 <= m < segs@[k as int]@.len() implies #[trigger] segs@[k as int]@[m] < 128 by {
                if m > 0 {
                    assert(is_word(s[k as int][m]));
                }
            }
        }
        let text = string_from_ascii(segs[k].clone());
        if is_keyword_text(text.as_str()) {
            let mut message = owned("`");
            append_text(&mut message, text.as_str());
            append_text(&mut message, "` is a reserved Papyrus keyword.");
            return Err(message);
        }
        k = k + 1;
    }
    Ok(())
}

/// The namespace and the plain name of a script name: the text around its
/// last `:`, or nothing and the whole name.
pub open spec fn last_colon(b: Seq<u8>, i: int) -> int
    decreases i,
{
    if i <= 0 || i > b.len() {
        -1
    } else if b[i - 1] == 58 {
        i - 1
    } else {
        last_colon(b, i - 1)
    }
}

pub fn split_script_name(name: &str) -> (r: (String, String))
    ensures
        ({
            let b = name.spec_bytes();
            let c = last_colon(b, b.len() as int);
            if c >= 0 {
                string_bytes(r.0) == b.subrange(0, c) && string_bytes(r.1) == b.subrange(
                    c + 1,
                    b.len() as int,
                )
            } else {
                string_bytes(r.0) == Seq::<u8>::empty() && string_bytes(r.1) == b
            }
        }),
{
    let b = name.as_bytes();
    let ghost bb = b@;
    let mut i = b.len();
    while i > 0 && b[i - 1] != 58
        invariant
            i <= bb.len(),
            bb == b@,
            last_colon(bb, i as int) == last_colon(bb, bb.len() as int),
        decreases i,
    {
        i = i - 1;
    }
    proof {
        crate::text::lemma_str_valid(name);
    }
    if i == 0 {
        assert(bb.subrange(0, bb.len() as int) =~= bb);
        return (String::new(), crate::text::string_from_valid_range(b, 0, b.len()));
    }
    let c = i - 1;
    proof {
        crate::text::lemma_cut_at_ascii(bb, c as int);
        crate::text::lemma_valid_after_ascii(bb, c + 1);
    }
    (crate::text::string_from_valid_range(b, 0, c), crate::text::string_from_valid_range(b, c + 1, b.len()))
}

/// Two optional names that are both missing, or equal without regard to case.
pub fn option_eq_ignore_ascii_case(left: Option<&str>, right: Option<&str>) -> (r: bool)
    ensures
        r == match (left, right) {
            (Some(l), Some(rr)) => same_ignoring_case(l.spec_bytes(), rr.spec_bytes()),
            (None, None) => true,
            _ => false,
        },
{
    match (left, right) {
        (Some(l), Some(rr)) => str_equal_ignoring_case(l, rr),
        (None, None) => true,
        _ => false,
    }
}

} // verus!
