//! The budgets that bound a walk over the workspace roots: how many
//! directory entries are visited, how many files are indexed, and how many
//! bytes are read, each file on its own and all of them together.
use vstd::prelude::*;

verus! {

/// Hard limits applied while walking configured workspace and import roots.
#[derive(Clone, Copy, Debug, PartialEq, Eq, Structural)]
pub struct IndexingLimits {
    pub max_entries: usize,
    pub max_files: usize,
    pub max_file_bytes: u64,
    pub max_total_bytes: u64,
    pub max_depth: usize,
}

impl Default for IndexingLimits {
    fn default() -> (r: Self)
        ensures
            r.max_entries == 1_000_000,
            r.max_files == 250_000,
            r.max_file_bytes == 16 * 1024 * 1024,
            r.max_total_bytes == 4 * 1024 * 1024 * 1024,
            r.max_depth == 128,
    {
        IndexingLimits {
            max_entries: 1_000_000,
            max_files: 250_000,
            max_file_bytes: 16_777_216,
            max_total_bytes: 4_294_967_296,
            max_depth: 128,
        }
    }
}

/// What one walk has used so far, and whether it has stopped on a limit.
#[derive(Clone, Copy, Debug, PartialEq, Eq, Structural)]
pub struct ScanBudget {
    pub entries: usize,
    pub files: usize,
    pub bytes: u64,
    pub stopped: bool,
}

impl ScanBudget {
    /// A walk that has used nothing.
    pub fn new() -> (r: ScanBudget)
        ensures
            r == (ScanBudget { entries: 0, files: 0, bytes: 0, stopped: false }),
    {
        ScanBudget { entries: 0, files: 0, bytes: 0, stopped: false }
    }
}

/// The file count or the total byte budget is spent.
pub open spec fn spent(b: ScanBudget, l: IndexingLimits) -> bool {
    b.files >= l.max_files || b.bytes >= l.max_total_bytes
}

/// The most bytes the next file may have: the per-file limit, or what is
/// left of the total when that is less.
pub open spec fn file_allowance(b: ScanBudget, l: IndexingLimits) -> int {
    if l.max_file_bytes <= l.max_total_bytes - b.bytes {
        l.max_file_bytes as int
    } else {
        l.max_total_bytes - b.bytes
    }
}

/// Whether another file may be indexed, and with how many bytes at most:
/// none once the file count or the total byte budget is spent.
pub fn admit_file(b: &ScanBudget, l: &IndexingLimits) -> (r: Option<u64>)
    ensures
        r is None <==> spent(*b, *l),
        r matches Some(m) ==> m == file_allowance(*b, *l),
{
    if b.files >= l.max_files || b.bytes >= l.max_total_bytes {
        return None;
    }
    let remaining = l.max_total_bytes - b.bytes;
    if l.max_file_bytes <= remaining {
        Some(l.max_file_bytes)
    } else {
        Some(remaining)
    }
}

/// Counts a file that was indexed with `bytes` bytes. Returns whether a
/// progress report is due: after every 250 files.
pub fn record_file(b: &mut ScanBudget, bytes: u64) -> (report: bool)
    requires
        old(b).files < usize::MAX,
        old(b).bytes + bytes <= u64::MAX,
    ensures
        final(b).files == old(b).files + 1,
        final(b).bytes == old(b).bytes + bytes,
        final(b).entries == old(b).entries,
        final(b).stopped == old(b).stopped,
        report == (final(b).files % 250 == 0),
{
    b.files = b.files + 1;
    b.bytes = b.bytes + bytes;
    b.files % 250 == 0
}

/// Counts a directory entry. Returns whether the walk may look at it; once
/// more entries than the limit have been seen, the walk stops.
pub fn admit_entry(b: &mut ScanBudget, l: &IndexingLimits) -> (r: bool)
    requires
        old(b).entries < usize::MAX,
    ensures
        final(b).entries == old(b).entries + 1,
        final(b).files == old(b).files,
        final(b).bytes == old(b).bytes,
        r == (final(b).entries <= l.max_entries),
        final(b).stopped == (old(b).stopped || !r),
{
    b.entries = b.entries + 1;
    if b.entries > l.max_entries {
        b.stopped = true;
        return false;
    }
    true
}

/// Whether a directory at this depth below its root may be walked.
pub fn within_depth(depth: usize, l: &IndexingLimits) -> (r: bool)
    ensures
        r == (depth <= l.max_depth),
{
    depth <= l.max_depth
}

/// After `record_file` with at most the allowance that `admit_file` gave,
/// the total never exceeds the byte budget.
pub proof fn law_budget_is_never_exceeded(b: ScanBudget, l: IndexingLimits, bytes: u64)
    requires
        !spent(b, l),
        bytes <= file_allowance(b, l),
    ensures
        b.bytes + bytes <= l.max_total_bytes,
        bytes <= l.max_file_bytes,
{
}

} // verus!
