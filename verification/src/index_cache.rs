//! The names of the semantic index cache's generation files, the keys of
//! its records, and the bounded buffer a generation is serialized into.
use vstd::prelude::*;
use vstd::string::{StrSliceExecFns, StringSliceAdditionalSpecFns};
use crate::text::{all_ascii, is_hex, string_bytes, string_from_ascii};
use crate::paths::hex_value;
use crate::workspace::{bytes_less, less_bytes};

verus! {

/// Bytes `[start, start + len)` of `b` are hexadecimal digits.
pub open spec fn hex_run(b: Seq<u8>, start: int, len: int) -> bool {
    forall|i: int| start <= i < start + len ==> #[trigger] is_hex(b[i])
}

/// The length of a generation file name after its prefix (32 + 1 + 8 + 1 +
/// 16 + 5): a 32-digit
/// timestamp, `-`, an 8-digit process id, `-`, a 16-digit sequence number,
/// and `.json`.
pub open spec fn generation_tail_len() -> int {
    63int
}

/// A generation file of the cache: `prefix`, then three hexadecimal fields
/// of 32, 8 and 16 digits separated by `-`, then `.json`.
pub open spec fn generation_name(name: Seq<u8>, prefix: Seq<u8>) -> bool {
    let p = prefix.len() as int;
    &&& name.len() == p + generation_tail_len()
    &&& name.subrange(0, p) == prefix
    &&& hex_run(name, p, 32)
    &&& name[p + 32] == 45u8
    &&& hex_run(name, p + 33, 8)
    &&& name[p + 41] == 45u8
    &&& hex_run(name, p + 42, 16)
    &&& name.subrange(p + 58, p + 63) == seq![46u8, 106u8, 115u8, 111u8, 110u8]
}

fn hex_bytes(b: &[u8], start: usize, len: usize) -> (r: bool)
    requires
        start + len <= b@.len(),
    ensures
        r == hex_run(b@, start as int, len as int),
{
    let total = b.len();
    let end = start + len;
    let mut i: usize = start;
    while i < end
        invariant
            end == start + len,
            start <= i <= end,
            end <= total,
            total == b@.len(),
            forall|k: int| start <= k < i ==> #[trigger] is_hex(b@[k]),
        decreases start + len - i,
    {
        if !crate::text::is_hex_byte(b[i]) {
            return false;
        }
        i = i + 1;
    }
    true
}

/// Whether `name` is a generation file of the cache (`is_generation_name`).
pub fn is_generation_name(name: &str, prefix: &str) -> (r: bool)
    ensures
        r == generation_name(name.spec_bytes(), prefix.spec_bytes()),
{
    let b = name.as_bytes();
    let pre = prefix.as_bytes();
    let p = pre.len();
    if b.len() < p || b.len() - p != 63 {
        return false;
    }
    let head = crate::text::copy_range(b, 0, p);
    if !crate::text::bytes_equal(head.as_slice(), pre) {
        return false;
    }
    let ghost bs = b@;
    let ext = crate::text::copy_range(b, p + 58, p + 63);
    let expected: [u8; 5] = [46u8, 106u8, 115u8, 111u8, 110u8];
    let ok = hex_bytes(b, p, 32) && b[p + 32] == 45u8 && hex_bytes(b, p + 33, 8) && b[p + 41] == 45u8 && hex_bytes(
        b,
        p + 42,
        16,
    ) && crate::text::bytes_equal(ext.as_slice(), expected.as_slice());
    proof {
        assert(expected@ =~= seq![46u8, 106u8, 115u8, 111u8, 110u8]);
    }
    ok
}

/// The serialization of a cache generation was refused: it would exceed
/// the buffer's limit.
#[derive(Clone, Copy, Debug, PartialEq, Eq, Structural)]
pub struct LimitExceeded;

/// A sum of lengths, saturated at `usize::MAX`.
pub open spec fn saturated_sum(a: nat, b: nat) -> int {
    if a + b > usize::MAX {
        usize::MAX as int
    } else {
        (a + b) as int
    }
}

/// The contents of a buffer with `limit` after a write of `w`: `w` appended
/// when the total stays within the limit, else unchanged.
pub open spec fn write_step(contents: Seq<u8>, limit: usize, w: Seq<u8>) -> Seq<u8> {
    if saturated_sum(contents.len(), w.len()) > limit {
        contents
    } else {
        contents + w
    }
}

/// The contents of a new buffer with `limit` after the writes `ws`, in order.
pub open spec fn after_writes(limit: usize, ws: Seq<Seq<u8>>) -> Seq<u8>
    decreases ws.len(),
{
    if ws.len() == 0 {
        Seq::empty()
    } else {
        write_step(after_writes(limit, ws.drop_last()), limit, ws.last())
    }
}

/// Whether the `i`-th of the writes `ws` is accepted by a new buffer with `limit`.
pub open spec fn write_accepted(limit: usize, ws: Seq<Seq<u8>>, i: int) -> bool {
    saturated_sum(after_writes(limit, ws.take(i)).len(), ws[i].len()) <= limit
}

/// Over any sequence of writes to a new buffer, the contents never exceed
/// the limit, each write appends all of its bytes when accepted and none
/// when refused, and what was written earlier stays in front. (With a limit
/// of `usize::MAX` a length sum that saturates would pass the check, so the
/// law is stated for smaller limits.)
pub proof fn law_limited_buffer_writes(limit: usize, ws: Seq<Seq<u8>>)
    requires
        limit < usize::MAX,
    ensures
        after_writes(limit, ws).len() <= limit,
        ws.len() > 0 ==> after_writes(limit, ws) == if write_accepted(limit, ws, ws.len() - 1) {
            after_writes(limit, ws.drop_last()) + ws.last()
        } else {
            after_writes(limit, ws.drop_last())
        },
        forall|i: int| 0 <= i <= ws.len() ==> #[trigger] after_writes(limit, ws.take(i)).is_prefix_of(after_writes(limit, ws)),
    decreases ws.len(),
{
    if ws.len() > 0 {
        law_limited_buffer_writes(limit, ws.drop_last());
        assert(ws.take(ws.len() - 1) =~= ws.drop_last());
        assert forall|i: int| 0 <= i <= ws.len() implies #[trigger] after_writes(limit, ws.take(i)).is_prefix_of(after_writes(limit, ws)) by {
            if i == ws.len() {
                assert(ws.take(i) =~= ws);
            } else {
                assert(ws.drop_last().take(i) =~= ws.take(i));
                let a = after_writes(limit, ws.take(i));
                let m = after_writes(limit, ws.drop_last());
                assert(a.is_prefix_of(m));
                let f = after_writes(limit, ws);
                assert(m.is_prefix_of(f)) by {
                    assert(f.subrange(0, m.len() as int) =~= m);
                }
                assert(f.subrange(0, a.len() as int) =~= m.subrange(0, a.len() as int));
            }
        }
    } else {
        assert(ws.take(0) =~= ws);
    }
}

/// A byte buffer that refuses a write that would take it past its limit.
pub struct LimitedBuffer {
    bytes: Vec<u8>,
    limit: usize,
}

impl LimitedBuffer {
    pub closed spec fn contents(&self) -> Seq<u8> {
        self.bytes@
    }

    pub closed spec fn spec_limit(&self) -> usize {
        self.limit
    }

    /// An empty buffer with a limit.
    pub fn new(limit: usize) -> (r: LimitedBuffer)
        ensures
            r.contents() == Seq::<u8>::empty(),
            r.spec_limit() == limit,
    {
        LimitedBuffer { bytes: Vec::new(), limit }
    }

    /// Appends `buffer`, unless the contents would then exceed the limit; the
    /// count of bytes written on success.
    pub fn write(&mut self, buffer: &[u8]) -> (r: Result<usize, LimitExceeded>)
        ensures
            final(self).spec_limit() == old(self).spec_limit(),
            saturated_sum(old(self).contents().len(), buffer@.len()) > old(self).spec_limit() ==> r is Err,
            saturated_sum(old(self).contents().len(), buffer@.len()) > old(self).spec_limit() ==> final(self).contents()
                == old(self).contents(),
            saturated_sum(old(self).contents().len(), buffer@.len()) <= old(self).spec_limit() ==> r == Ok::<
                usize,
                LimitExceeded,
            >(buffer@.len() as usize),
            saturated_sum(old(self).contents().len(), buffer@.len()) <= old(self).spec_limit() ==> final(self).contents()
                == old(self).contents() + buffer@,
            old(self).contents().len() <= old(self).spec_limit() && old(self).contents().len() + buffer@.len() <= usize::MAX
                ==> final(self).contents().len() <= final(self).spec_limit(),
            final(self).contents() == write_step(old(self).contents(), old(self).spec_limit(), buffer@),
    {
        if self.bytes.len().saturating_add(buffer.len()) > self.limit {
            return Err(LimitExceeded);
        }
        let mut i: usize = 0;
        let ghost start = self.bytes@;
        while i < buffer.len()
            invariant
                0 <= i <= buffer@.len(),
                self.bytes@ == start + buffer@.subrange(0, i as int),
                self.limit == old(self).limit,
            decreases buffer@.len() - i,
        {
            self.bytes.push(buffer[i]);
            i = i + 1;
            assert(self.bytes@ =~= start + buffer@.subrange(0, i as int));
        }
        assert(buffer@.subrange(0, buffer@.len() as int) =~= buffer@);
        Ok(buffer.len())
    }

    /// Flushing a buffer in memory does nothing.
    pub fn flush(&mut self) -> (r: Result<(), LimitExceeded>)
        ensures
            r is Ok,
            *final(self) == *old(self),
    {
        Ok(())
    }

    /// The bytes written.
    pub fn into_inner(self) -> (r: Vec<u8>)
        ensures
            r@ == self.contents(),
    {
        self.bytes
    }
}

/// The lowercase hexadecimal digit of a value below 16.
pub open spec fn hex_digit(d: int) -> u8 {
    if d < 10 {
        (48 + d) as u8
    } else {
        (87 + d) as u8
    }
}

/// A number in `width` lowercase hexadecimal digits, padded with zeros
/// (`{:0width$x}` for a number that fits).
pub open spec fn hex_fixed(v: nat, width: nat) -> Seq<u8>
    decreases width,
{
    if width == 0 {
        Seq::empty()
    } else {
        hex_fixed(v / 16, (width - 1) as nat).push(hex_digit((v % 16) as int))
    }
}

pub proof fn lemma_hex_ascii(v: nat, width: nat)
    ensures
        all_ascii(hex_fixed(v, width)),
        hex_fixed(v, width).len() == width,
    decreases width,
{
    if width > 0 {
        lemma_hex_ascii(v / 16, (width - 1) as nat);
    }
}

proof fn lemma_hex_digits(v: nat, width: nat)
    ensures
        hex_fixed(v, width).len() == width,
        forall|k: int| 0 <= k < width ==> #[trigger] is_hex(hex_fixed(v, width)[k]),
    decreases width,
{
    if width > 0 {
        lemma_hex_digits(v / 16, (width - 1) as nat);
        let d = (v % 16) as int;
        assert(is_hex(hex_digit(d)));
        assert forall|k: int| 0 <= k < width implies #[trigger] is_hex(hex_fixed(v, width)[k]) by {
            if k < width - 1 {
                assert(hex_fixed(v, width)[k] == hex_fixed(v / 16, (width - 1) as nat)[k]);
            }
        }
    }
}

/// The name of a published generation: the prefix, the generation's
/// identity and `.json`.
pub open spec fn generation_file_name(prefix: Seq<u8>, id: Seq<u8>) -> Seq<u8> {
    prefix + id + seq![46u8, 106u8, 115u8, 111u8, 110u8]
}

/// Every identity that `generation_id` gives names a generation that the
/// cache recognises as its own, whatever the prefix.
pub proof fn law_generation_ids_are_generation_names(prefix: Seq<u8>, timestamp: u128, process: u32, sequence: u64)
    ensures
        generation_name(generation_file_name(prefix, generation_id_spec(timestamp, process, sequence)), prefix),
{
    lemma_hex_digits(timestamp as nat, 32);
    lemma_hex_digits(process as nat, 8);
    lemma_hex_digits(sequence as nat, 16);
    let a = hex_fixed(timestamp as nat, 32);
    let b = hex_fixed(process as nat, 8);
    let c = hex_fixed(sequence as nat, 16);
    let name = generation_file_name(prefix, generation_id_spec(timestamp, process, sequence));
    let p = prefix.len() as int;
    assert(name =~= prefix + a + seq![45u8] + b + seq![45u8] + c + seq![46u8, 106u8, 115u8, 111u8, 110u8]);
    assert(name.subrange(0, p) =~= prefix);
    assert forall|i: int| p <= i < p + 32 implies #[trigger] is_hex(name[i]) by {
        assert(name[i] == a[i - p]);
    }
    assert forall|i: int| p + 33 <= i < p + 41 implies #[trigger] is_hex(name[i]) by {
        assert(name[i] == b[i - p - 33]);
    }
    assert forall|i: int| p + 42 <= i < p + 58 implies #[trigger] is_hex(name[i]) by {
        assert(name[i] == c[i - p - 42]);
    }
    assert(name.subrange(p + 58, p + 63) =~= seq![46u8, 106u8, 115u8, 111u8, 110u8]);
}

/// Appends a number in `width` hexadecimal digits.
fn push_hex(out: &mut Vec<u8>, v: u128, width: usize)
    ensures
        final(out)@ == old(out)@ + hex_fixed(v as nat, width as nat),
    decreases width,
{
    if width == 0 {
        assert(old(out)@ + Seq::<u8>::empty() =~= old(out)@);
        return;
    }
    push_hex(out, v / 16, width - 1);
    let d = (v % 16) as u8;
    out.push(if d < 10 {
        48 + d
    } else {
        87 + d
    });
    assert(final(out)@ =~= old(out)@ + hex_fixed(v as nat, width as nat));
}

/// The text `unix:`.
pub open spec fn unix_prefix() -> Seq<u8> {
    seq![117u8, 110u8, 105u8, 120u8, 58u8]
}

/// The text `windows:`.
pub open spec fn windows_prefix() -> Seq<u8> {
    seq![119u8, 105u8, 110u8, 100u8, 111u8, 119u8, 115u8, 58u8]
}

fn push_all(out: &mut Vec<u8>, bytes: &[u8])
    ensures
        final(out)@ == old(out)@ + bytes@,
{
    let mut i: usize = 0;
    while i < bytes.len()
        invariant
            0 <= i <= bytes@.len(),
            out@ == old(out)@ + bytes@.subrange(0, i as int),
        decreases bytes@.len() - i,
    {
        out.push(bytes[i]);
        i = i + 1;
        assert(out@ =~= old(out)@ + bytes@.subrange(0, i as int));
    }
    assert(bytes@.subrange(0, bytes@.len() as int) =~= bytes@);
}

/// The key of a cache record under Unix: `unix:` and two hexadecimal
/// digits for each byte of the canonical path.
pub open spec fn unix_key(path: Seq<u8>) -> Seq<u8>
    decreases path.len(),
{
    if path.len() == 0 {
        unix_prefix()
    } else {
        unix_key(path.drop_last()) + hex_fixed(path.last() as nat, 2)
    }
}

/// The key of a cache record under Windows: `windows:` and four
/// hexadecimal digits for each UTF-16 unit of the canonical path.
pub open spec fn windows_key(units: Seq<u16>) -> Seq<u8>
    decreases units.len(),
{
    if units.len() == 0 {
        windows_prefix()
    } else {
        windows_key(units.drop_last()) + hex_fixed(units.last() as nat, 4)
    }
}

proof fn lemma_unix_key_ascii(path: Seq<u8>)
    ensures
        all_ascii(unix_key(path)),
    decreases path.len(),
{
    if path.len() > 0 {
        lemma_unix_key_ascii(path.drop_last());
        lemma_hex_ascii(path.last() as nat, 2);
        let a = unix_key(path.drop_last());
        let h = hex_fixed(path.last() as nat, 2);
        assert forall|i: int| 0 <= i < (a + h).len() implies #[trigger] (a + h)[i] < 128 by {
            if i < a.len() {
                assert((a + h)[i] == a[i]);
            } else {
                assert((a + h)[i] == h[i - a.len()]);
            }
        }
    } else {
    }
}

proof fn lemma_windows_key_ascii(units: Seq<u16>)
    ensures
        all_ascii(windows_key(units)),
    decreases units.len(),
{
    if units.len() > 0 {
        lemma_windows_key_ascii(units.drop_last());
        lemma_hex_ascii(units.last() as nat, 4);
        let a = windows_key(units.drop_last());
        let h = hex_fixed(units.last() as nat, 4);
        assert forall|i: int| 0 <= i < (a + h).len() implies #[trigger] (a + h)[i] < 128 by {
            if i < a.len() {
                assert((a + h)[i] == a[i]);
            } else {
                assert((a + h)[i] == h[i - a.len()]);
            }
        }
    } else {
    }
}

/// The key of a cache record from the bytes of a Unix path.
pub fn unix_path_key(path: &[u8]) -> (r: String)
    ensures
        string_bytes(r) == unix_key(path@),
{
    let mut out: Vec<u8> = Vec::new();
    let prefix: [u8; 5] = [117, 110, 105, 120, 58];
    assert(prefix@ =~= unix_prefix());
    push_all(&mut out, &prefix);
    let mut i: usize = 0;
    assert(path@.subrange(0, 0) =~= Seq::<u8>::empty());
    while i < path.len()
        invariant
            0 <= i <= path@.len(),
            out@ == unix_key(path@.subrange(0, i as int)),
        decreases path@.len() - i,
    {
        push_hex(&mut out, path[i] as u128, 2);
        i = i + 1;
        assert(path@.subrange(0, i as int).drop_last() =~= path@.subrange(0, i - 1));
    }
    assert(path@.subrange(0, path@.len() as int) =~= path@);
    proof {
        lemma_unix_key_ascii(path@);
    }
    string_from_ascii(out)
}

/// The key of a cache record from the UTF-16 units of a Windows path.
pub fn windows_path_key(units: &[u16]) -> (r: String)
    ensures
        string_bytes(r) == windows_key(units@),
{
    let mut out: Vec<u8> = Vec::new();
    let prefix: [u8; 8] = [119, 105, 110, 100, 111, 119, 115, 58];
    assert(prefix@ =~= windows_prefix());
    push_all(&mut out, &prefix);
    let mut i: usize = 0;
    assert(units@.subrange(0, 0) =~= Seq::<u16>::empty());
    while i < units.len()
        invariant
            0 <= i <= units@.len(),
            out@ == windows_key(units@.subrange(0, i as int)),
        decreases units@.len() - i,
    {
        push_hex(&mut out, units[i] as u128, 4);
        i = i + 1;
        assert(units@.subrange(0, i as int).drop_last() =~= units@.subrange(0, i - 1));
    }
    assert(units@.subrange(0, units@.len() as int) =~= units@);
    proof {
        lemma_windows_key_ascii(units@);
    }
    string_from_ascii(out)
}

/// A generation's identity: the time in 32 hexadecimal digits, the process
/// in 8 and the sequence number in 16, joined by `-`.
pub open spec fn generation_id_spec(timestamp: u128, process: u32, sequence: u64) -> Seq<u8> {
    hex_fixed(timestamp as nat, 32) + seq![45u8] + hex_fixed(process as nat, 8) + seq![45u8] + hex_fixed(
        sequence as nat,
        16,
    )
}

/// A generation's identity (`generation_id`, from the time, the process and
/// the sequence number that the caller reads).
pub fn generation_id(timestamp: u128, process: u32, sequence: u64) -> (r: String)
    ensures
        string_bytes(r) == generation_id_spec(timestamp, process, sequence),
{
    let mut out: Vec<u8> = Vec::new();
    push_hex(&mut out, timestamp, 32);
    out.push(45);
    push_hex(&mut out, process as u128, 8);
    out.push(45);
    push_hex(&mut out, sequence as u128, 16);
    proof {
        assert(out@ =~= generation_id_spec(timestamp, process, sequence));
        lemma_hex_ascii(timestamp as nat, 32);
        lemma_hex_ascii(process as nat, 8);
        lemma_hex_ascii(sequence as nat, 16);
        let g = out@;
        assert forall|i: int| 0 <= i < g.len() implies #[trigger] g[i] < 128 by {
            let a = hex_fixed(timestamp as nat, 32);
            let b = hex_fixed(process as nat, 8);
            let c = hex_fixed(sequence as nat, 16);
            if i < 32 {
                assert(g[i] == a[i]);
            } else if i == 32 {
            } else if i < 41 {
                assert(g[i] == b[i - 33]);
            } else if i == 41 {
            } else {
                assert(g[i] == c[i - 42]);
            }
        }
    }
    string_from_ascii(out)
}


/// The schema of the cache file that this library reads and writes.
pub const SCHEMA_VERSION: u32 = 5;

/// How many published generations are kept when the cache is saved.
pub const RETAINED_GENERATIONS: usize = 2;

/// The largest generation file that is read or written.
pub const MAX_CACHE_BYTES: u64 = 268_435_456;

/// What a cache record remembers of the file it was made from: its size,
/// its modification time in nanoseconds, and the hexadecimal digest of its
/// normalized content.
pub struct CacheRecord {
    pub size: u64,
    pub modified_nanos: u128,
    pub content_hash: String,
}

/// How many lookups found a usable record, and how many did not.
#[derive(Clone, Copy, Debug, PartialEq, Eq, Structural)]
pub struct CacheCounters {
    pub hits: usize,
    pub misses: usize,
}

/// The bytes that 64 hexadecimal digits spell, two digits to a byte.
pub open spec fn hex_decoded(h: Seq<u8>) -> Seq<u8> {
    Seq::new(32, |i: int| (16 * hex_value(h[2 * i]) + hex_value(h[2 * i + 1])) as u8)
}

/// Text that `blake3::Hash::from_hex` accepts: 64 hexadecimal digits.
pub open spec fn digest_text(h: Seq<u8>) -> bool {
    h.len() == 64 && hex_run(h, 0, 64)
}

/// `blake3::Hash::from_hex`: 64 hexadecimal digits of either case give the
/// 32 bytes they spell, high digit first; any other text is refused.
#[verifier::external_body]
fn hash_from_hex(hex: &str) -> (r: Option<Vec<u8>>)
    ensures
        r is Some <==> digest_text(hex.spec_bytes()),
        r matches Some(v) ==> v@ == hex_decoded(hex.spec_bytes()),
{
    blake3::Hash::from_hex(hex).ok().map(|h| h.as_bytes().to_vec())
}

/// A record can stand for the file: the file's size and modification time
/// could be read and equal the record's, and the record's digest text is
/// valid and spells the digest the file's content has now.
pub open spec fn record_matches(
    record: Option<&CacheRecord>,
    fingerprint: Option<(u64, u128)>,
    expected: Seq<u8>,
) -> bool {
    &&& fingerprint is Some
    &&& record is Some
    &&& record.unwrap().size == fingerprint.unwrap().0
    &&& record.unwrap().modified_nanos == fingerprint.unwrap().1
    &&& digest_text(string_bytes(record.unwrap().content_hash))
    &&& hex_decoded(string_bytes(record.unwrap().content_hash)) == expected
}

/// Whether a cached record may be used for a file:
/// `fingerprint` is the file's size and modification time, `None` when they
/// could not be read, and `record` what the cache holds under the file's
/// key. Every lookup counts as exactly one hit or one miss.
pub fn cache_hit(
    record: Option<&CacheRecord>,
    fingerprint: Option<(u64, u128)>,
    expected_hash: &Vec<u8>,
    counters: &mut CacheCounters,
) -> (hit: bool)
    requires
        old(counters).hits < usize::MAX,
        old(counters).misses < usize::MAX,
    ensures
        hit == record_matches(record, fingerprint, expected_hash@),
        hit ==> *final(counters) == (CacheCounters { hits: (old(counters).hits + 1) as usize, ..*old(counters) }),
        !hit ==> *final(counters) == (CacheCounters { misses: (old(counters).misses + 1) as usize, ..*old(counters) }),
{
    let hit = match (fingerprint, record) {
        (Some((size, modified)), Some(r)) => {
            if r.size != size || r.modified_nanos != modified {
                false
            } else {
                match hash_from_hex(r.content_hash.as_str()) {
                    None => false,
                    Some(bytes) => crate::text::bytes_equal(bytes.as_slice(), expected_hash.as_slice()),
                }
            }
        },
        _ => false,
    };
    if hit {
        counters.hits = counters.hits + 1;
    } else {
        counters.misses = counters.misses + 1;
    }
    hit
}

/// The generation named `names[j]` is listed before the one named
/// `names[i]` when the owned generations are sorted newest first: by name,
/// descending, with equal names in their listed order.
pub open spec fn listed_before(names: Seq<String>, prefix: Seq<u8>, i: int, j: int) -> bool {
    generation_name(string_bytes(names[j]), prefix) && (bytes_less(
        string_bytes(names[i]),
        string_bytes(names[j]),
    ) || (j < i && string_bytes(names[j]) == string_bytes(names[i])))
}

/// How many of the first `k` names are listed before `names[i]`.
pub open spec fn newer_count(names: Seq<String>, prefix: Seq<u8>, i: int, k: int) -> nat
    decreases k,
{
    if k <= 0 {
        0
    } else {
        newer_count(names, prefix, i, k - 1) + if listed_before(names, prefix, i, k - 1) {
            1nat
        } else {
            0nat
        }
    }
}

/// The generation at `i` is removed when the cache keeps `keep`: it is
/// owned, and `keep` or more owned generations are listed before it.
pub open spec fn pruned(names: Seq<String>, prefix: Seq<u8>, keep: usize, i: int) -> bool {
    generation_name(string_bytes(names[i]), prefix) && newer_count(names, prefix, i, names.len() as int)
        >= keep
}

fn count_newer(names: &Vec<String>, prefix: &str, i: usize) -> (r: usize)
    requires
        i < names@.len(),
    ensures
        r == newer_count(names@, prefix.spec_bytes(), i as int, names@.len() as int),
{
    let mut count: usize = 0;
    let mut j: usize = 0;
    let mine = names[i].as_str().as_bytes_vec();
    while j < names.len()
        invariant
            j <= names@.len(),
            i < names@.len(),
            mine@ == string_bytes(names@[i as int]),
            count == newer_count(names@, prefix.spec_bytes(), i as int, j as int),
            count <= j,
        decreases names@.len() - j,
    {
        if is_generation_name(names[j].as_str(), prefix) {
            let other = names[j].as_str().as_bytes_vec();
            if less_bytes(&mine, &other) || (j < i && crate::text::bytes_equal(other.as_slice(), mine.as_slice())) {
                count = count + 1;
            }
        }
        j = j + 1;
    }
    count
}

/// The generations to remove when saving: the
/// indices, in increasing order, of the owned generation names in `names`
/// except the `keep` newest.
pub fn generations_to_prune(names: &Vec<String>, prefix: &str, keep: usize) -> (r: Vec<usize>)
    ensures
        forall|a: int, b: int| 0 <= a < b < r@.len() ==> r@[a] < r@[b],
        forall|k: int| 0 <= k < r@.len() ==> r@[k] < names@.len() && pruned(names@, prefix.spec_bytes(), keep, r@[k] as int),
        forall|i: int| 0 <= i < names@.len() && pruned(names@, prefix.spec_bytes(), keep, i) ==> r@.contains(i as usize),
{
    let mut r: Vec<usize> = Vec::new();
    let mut i: usize = 0;
    while i < names.len()
        invariant
            i <= names@.len(),
            forall|a: int, b: int| 0 <= a < b < r@.len() ==> r@[a] < r@[b],
            forall|k: int| 0 <= k < r@.len() ==> r@[k] < i && pruned(names@, prefix.spec_bytes(), keep, r@[k] as int),
            forall|x: int| 0 <= x < i && pruned(names@, prefix.spec_bytes(), keep, x) ==> r@.contains(x as usize),
        decreases names@.len() - i,
    {
        let ghost r0 = r@;
        if is_generation_name(names[i].as_str(), prefix) && count_newer(names, prefix, i) >= keep {
            r.push(i);
            proof {
                assert(r@[r@.len() - 1] == i);
            }
        }
        proof {
            assert forall|x: int| 0 <= x < i + 1 && pruned(names@, prefix.spec_bytes(), keep, x) implies r@.contains(x as usize) by {
                if x < i {
                    assert(r0.contains(x as usize));
                    let k = choose|k: int| 0 <= k < r0.len() && r0[k] == x as usize;
                    assert(r@[k] == r0[k]);
                } else {
                    assert(r@[r@.len() - 1] == x as usize);
                }
            }
        }
        i = i + 1;
    }
    r
}

} // verus!
