//! The hash of a document's content with line endings normalized, which
//! tells two copies of a script apart.
use vstd::prelude::*;
use vstd::string::StringSliceAdditionalSpecFns;

verus! {

/// The BLAKE3 digest of some bytes, as `blake3::hash` computes it.
pub uninterp spec fn blake3_digest(data: Seq<u8>) -> Seq<u8>;

/// `blake3::hash`: the digest of the bytes, its 32 bytes (`blake3::OUT_LEN`)
/// as a vector. The digest is named, not stated; that it has 32 bytes is
/// what the type `blake3::Hash` (`[u8; OUT_LEN]`) shows.
#[verifier::external_body]
fn blake3_hash(data: &[u8]) -> (r: Vec<u8>)
    ensures
        r@ == blake3_digest(data@),
        r@.len() == 32,
{
    blake3::hash(data).as_bytes().to_vec()
}

/// Line endings made `\n`: a `\r\n` pair becomes `\n`, a lone `\r` too.
pub open spec fn newlines_normalized(b: Seq<u8>) -> Seq<u8>
    decreases b.len(),
{
    if b.len() == 0 {
        b
    } else if b[0] == 13 {
        if b.len() > 1 && b[1] == 10 {
            newlines_normalized(b.drop_first())
        } else {
            seq![10u8] + newlines_normalized(b.drop_first())
        }
    } else {
        seq![b[0]] + newlines_normalized(b.drop_first())
    }
}

/// The text without a leading byte-order mark.
pub open spec fn without_bom(b: Seq<u8>) -> Seq<u8> {
    if b.len() >= 3 && b[0] == 0xEF && b[1] == 0xBB && b[2] == 0xBF {
        b.subrange(3, b.len() as int)
    } else {
        b
    }
}

/// The text that is hashed: no byte-order mark, and `\n` line endings.
pub open spec fn normalized_content(b: Seq<u8>) -> Seq<u8> {
    newlines_normalized(without_bom(b))
}

fn normalize(text: &[u8]) -> (r: Vec<u8>)
    ensures
        r@ == normalized_content(text@),
{
    let n = text.len();
    let from: usize = if n >= 3 && text[0] == 0xEF && text[1] == 0xBB && text[2] == 0xBF {
        3
    } else {
        0
    };
    let ghost b = without_bom(text@);
    assert(b =~= text@.subrange(from as int, n as int));
    let mut out: Vec<u8> = Vec::new();
    let mut i: usize = from;
    assert(text@.subrange(from as int, n as int) =~= b);
    while i < n
        invariant
            from <= i <= n,
            n == text@.len(),
            b == text@.subrange(from as int, n as int),
            out@ + newlines_normalized(text@.subrange(i as int, n as int)) == newlines_normalized(b),
        decreases n - i,
    {
        let ghost rest = text@.subrange(i as int, n as int);
        assert(rest.drop_first() =~= text@.subrange(i + 1, n as int));
        let ghost before = out@;
        if text[i] == 13 {
            if i + 1 < n && text[i + 1] == 10 {
                assert(rest[1] == text@[i + 1]);
            } else {
                out.push(10);
                assert(out@ + newlines_normalized(rest.drop_first()) =~= before + (seq![10u8] + newlines_normalized(
                    rest.drop_first(),
                )));
            }
        } else {
            out.push(text[i]);
            assert(out@ + newlines_normalized(rest.drop_first()) =~= before + (seq![text@[i as int]]
                + newlines_normalized(rest.drop_first())));
        }
        i = i + 1;
    }
    assert(text@.subrange(n as int, n as int) =~= Seq::<u8>::empty());
    assert(out@ + Seq::<u8>::empty() =~= out@);
    out
}

/// The hash of a document's text with its line endings normalized
/// (`normalized_content_hash`).
pub fn normalized_content_hash(text: &str) -> (r: Vec<u8>)
    ensures
        r@ == blake3_digest(normalized_content(text.spec_bytes())),
        r@.len() == 32,
{
    let normalized = normalize(text.as_bytes());
    blake3_hash(normalized.as_slice())
}


/// The text with each `\n` written as `ending` instead.
pub open spec fn with_line_ending(b: Seq<u8>, ending: Seq<u8>) -> Seq<u8>
    decreases b.len(),
{
    if b.len() == 0 {
        b
    } else {
        (if b[0] == 10 { ending } else { seq![b[0]] }) + with_line_ending(b.drop_first(), ending)
    }
}

/// A line ending that documents use: `\n`, `\r\n` or `\r`.
pub open spec fn line_ending(e: Seq<u8>) -> bool {
    e == seq![10u8] || e == seq![13u8, 10u8] || e == seq![13u8]
}

/// Text with no carriage return and no leading byte-order mark.
pub open spec fn plain_text(b: Seq<u8>) -> bool {
    &&& forall|k: int| 0 <= k < b.len() ==> #[trigger] b[k] != 13
    &&& !(b.len() >= 3 && b[0] == 0xEF && b[1] == 0xBB && b[2] == 0xBF)
}

pub open spec fn byte_order_mark() -> Seq<u8> {
    seq![0xEFu8, 0xBBu8, 0xBFu8]
}

proof fn lemma_line_ending_normalizes(b: Seq<u8>, e: Seq<u8>)
    requires
        forall|k: int| 0 <= k < b.len() ==> #[trigger] b[k] != 13,
        line_ending(e),
    ensures
        newlines_normalized(with_line_ending(b, e)) == b,
        with_line_ending(b, e).len() > 0 ==> with_line_ending(b, e)[0] == (if b[0] == 10 { e[0] } else { b[0] }),
        e == seq![13u8] && with_line_ending(b, e).len() > 0 ==> with_line_ending(b, e)[0] != 10,
    decreases b.len(),
{
    if b.len() > 0 {
        let rest = b.drop_first();
        lemma_line_ending_normalizes(rest, e);
        let w = with_line_ending(b, e);
        let wr = with_line_ending(rest, e);
        if b[0] == 10 {
            assert(w == e + wr);
            assert(b =~= seq![10u8] + rest);
            if e == seq![10u8] {
                assert(w.drop_first() =~= wr);
                assert(newlines_normalized(w) == seq![w[0]] + newlines_normalized(w.drop_first()));
            } else if e == seq![13u8, 10u8] {
                let d = w.drop_first();
                assert(d =~= seq![10u8] + wr);
                assert(d.drop_first() =~= wr);
                assert(newlines_normalized(w) == newlines_normalized(d));
                assert(newlines_normalized(d) == seq![d[0]] + newlines_normalized(d.drop_first()));
            } else {
                assert(w.drop_first() =~= wr);
                if wr.len() > 0 {
                    assert(w[1] == wr[0]);
                }
                assert(newlines_normalized(w) == seq![10u8] + newlines_normalized(w.drop_first()));
            }
        } else {
            assert(w == seq![b[0]] + wr);
            assert(w.drop_first() =~= wr);
            assert(b =~= seq![b[0]] + rest);
            assert(newlines_normalized(w) == seq![w[0]] + newlines_normalized(w.drop_first()));
        }
    }
}

proof fn lemma_line_ending_keeps_start(b: Seq<u8>, e: Seq<u8>)
    requires
        line_ending(e),
        plain_text(b),
    ensures
        without_bom(with_line_ending(b, e)) == with_line_ending(b, e),
{
    let w = with_line_ending(b, e);
    if w.len() >= 3 && w[0] == 0xEF && w[1] == 0xBB && w[2] == 0xBF {
        lemma_line_ending_normalizes(b, e);
        assert(b[0] != 10);
        let r1 = b.drop_first();
        assert(w == seq![b[0]] + with_line_ending(r1, e));
        lemma_line_ending_normalizes(r1, e);
        assert(with_line_ending(r1, e)[0] == w[1]);
        assert(r1[0] != 10);
        let r2 = r1.drop_first();
        assert(with_line_ending(r1, e) == seq![r1[0]] + with_line_ending(r2, e));
        lemma_line_ending_normalizes(r2, e);
        assert(with_line_ending(r2, e)[0] == w[2]);
        assert(r2[0] != 10);
        assert(b[1] == r1[0] && b[2] == r2[0]);
    }
}

/// The text that is hashed is the same whatever line endings a document
/// uses and whether it starts with a byte-order mark, so such variants of a
/// text have one content hash.
pub proof fn law_line_endings_hash_alike(b: Seq<u8>, ending: Seq<u8>, mark: bool)
    requires
        plain_text(b),
        line_ending(ending),
    ensures
        normalized_content((if mark { byte_order_mark() } else { Seq::empty() }) + with_line_ending(b, ending)) == b,
        normalized_content(b) == b,
        blake3_digest(normalized_content((if mark { byte_order_mark() } else { Seq::empty() }) + with_line_ending(b, ending)))
            == blake3_digest(normalized_content(b)),
{
    let w = with_line_ending(b, ending);
    lemma_line_ending_normalizes(b, ending);
    lemma_line_ending_normalizes(b, seq![10u8]);
    lemma_line_ending_keeps_start(b, ending);
    lemma_line_ending_keeps_start(b, seq![10u8]);
    lemma_same_text(b);
    if mark {
        let v = byte_order_mark() + w;
        assert(v.subrange(3, v.len() as int) =~= w);
    } else {
        assert(Seq::<u8>::empty() + w =~= w);
    }
}

proof fn lemma_same_text(b: Seq<u8>)
    ensures
        with_line_ending(b, seq![10u8]) == b,
    decreases b.len(),
{
    if b.len() > 0 {
        lemma_same_text(b.drop_first());
        if b[0] == 10 {
            assert(b =~= seq![10u8] + b.drop_first());
        } else {
            assert(b =~= seq![b[0]] + b.drop_first());
        }
    }
}
} // verus!
