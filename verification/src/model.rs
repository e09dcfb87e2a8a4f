//! Data carried by one scrape of the build engine's control API, and the
//! spec-level arithmetic the exported metrics are stated with.

use vstd::prelude::*;

verus! {

/// Version and revision labels reported by the build engine.
#[derive(Clone)]
pub struct Identity {
    pub version: String,
    pub revision: String,
}

/// One cache/disk-usage record: a size in bytes and a record-type label.
/// The label may be empty; an empty label is exported under `unknown`.
#[derive(Clone)]
pub struct DiskRecord {
    pub size: i64,
    pub record_type: String,
}

/// Error attached to a completed build. A code of 0 still counts as success.
#[derive(Clone, Copy)]
pub struct BuildError {
    pub code: i32,
}

/// One completed build from the engine's history window, identified solely
/// by its reference string.
#[derive(Clone)]
pub struct BuildRecord {
    pub reference: String,
    pub error: Option<BuildError>,
    pub cached_steps: u64,
    pub total_steps: u64,
}

/// Kind of one event on the build-history stream.
pub enum HistoryEventKind {
    Started,
    Complete,
    Deleted,
}

/// One event from the bounded build-history stream; only `Complete` events
/// carrying a record contribute to the counters.
pub struct HistoryEvent {
    pub kind: HistoryEventKind,
    pub record: Option<BuildRecord>,
}

/// Everything one successful round of remote calls yields, before the dedup
/// filter runs.
pub struct ScrapeData {
    pub identity: Option<Identity>,
    pub worker_count: u64,
    pub disk: Vec<DiskRecord>,
    pub events: Vec<HistoryEvent>,
}

/// A build with no error, or an error whose code is 0, succeeded.
pub open spec fn build_succeeded(r: BuildRecord) -> bool {
    match r.error {
        Option::None => true,
        Option::Some(e) => e.code == 0,
    }
}

/// Number of records in `s` that succeeded.
pub open spec fn count_succeeded(s: Seq<BuildRecord>) -> int
    decreases s.len(),
{
    if s.len() == 0 {
        0
    } else {
        count_succeeded(s.drop_last()) + if build_succeeded(s.last()) {
            1int
        } else {
            0int
        }
    }
}

/// Number of records in `s` that failed.
pub open spec fn count_failed(s: Seq<BuildRecord>) -> int
    decreases s.len(),
{
    if s.len() == 0 {
        0
    } else {
        count_failed(s.drop_last()) + if build_succeeded(s.last()) {
            0int
        } else {
            1int
        }
    }
}

/// Sum of the cache-hit step counts of all records in `s`.
pub open spec fn sum_cached_steps(s: Seq<BuildRecord>) -> int
    decreases s.len(),
{
    if s.len() == 0 {
        0
    } else {
        sum_cached_steps(s.drop_last()) + s.last().cached_steps
    }
}

/// Sum of the total step counts of all records in `s`.
pub open spec fn sum_total_steps(s: Seq<BuildRecord>) -> int
    decreases s.len(),
{
    if s.len() == 0 {
        0
    } else {
        sum_total_steps(s.drop_last()) + s.last().total_steps
    }
}

/// Sum of the sizes of all disk-usage records in `s`, as a mathematical
/// integer (remote-reported negative sizes pass through unmodified).
pub open spec fn sum_sizes(s: Seq<DiskRecord>) -> int
    decreases s.len(),
{
    if s.len() == 0 {
        0
    } else {
        sum_sizes(s.drop_last()) + s.last().size
    }
}

/// The label a record is grouped under: its own label, or `unknown` when the
/// label is empty.
pub open spec fn effective_label(t: Seq<char>) -> Seq<char> {
    if t.len() == 0 {
        "unknown"@
    } else {
        t
    }
}

/// Whether some record of `s` is grouped under label `l`.
pub open spec fn has_label(s: Seq<DiskRecord>, l: Seq<char>) -> bool
    decreases s.len(),
{
    if s.len() == 0 {
        false
    } else {
        has_label(s.drop_last(), l) || effective_label(s.last().record_type@) == l
    }
}

/// Sum of the sizes of the records of `s` grouped under label `l`.
pub open spec fn type_sum(s: Seq<DiskRecord>, l: Seq<char>) -> int
    decreases s.len(),
{
    if s.len() == 0 {
        0
    } else {
        type_sum(s.drop_last(), l) + if effective_label(s.last().record_type@) == l {
            s.last().size as int
        } else {
            0int
        }
    }
}

/// An integer clamped into the `i64` range; the identity on values that fit.
pub open spec fn clamp_i64(v: int) -> i64 {
    if v > i64::MAX {
        i64::MAX
    } else if v < i64::MIN {
        i64::MIN
    } else {
        v as i64
    }
}

/// A counter after adding `d`, clamped at `u64::MAX` so that counters only
/// ever move forward.
pub open spec fn counter_add(c: u64, d: int) -> u64
    recommends
        d >= 0,
{
    if c + d > u64::MAX {
        u64::MAX
    } else {
        (c + d) as u64
    }
}

/// The success and failure counts are each at most the number of records and
/// together account for every record; the step sums are bounded by the
/// number of records times the largest step count.
pub proof fn lemma_build_tallies_bounds(s: Seq<BuildRecord>)
    ensures
        0 <= count_succeeded(s) <= s.len(),
        0 <= count_failed(s) <= s.len(),
        count_succeeded(s) + count_failed(s) == s.len(),
        0 <= sum_cached_steps(s) <= s.len() * (u64::MAX as int),
        0 <= sum_total_steps(s) <= s.len() * (u64::MAX as int),
    decreases s.len(),
{
    if s.len() > 0 {
        lemma_build_tallies_bounds(s.drop_last());
    }
}

/// The size sum of `s` lies between the record count times the smallest and
/// largest representable sizes.
pub proof fn lemma_sum_sizes_bounds(s: Seq<DiskRecord>)
    ensures
        s.len() * (i64::MIN as int) <= sum_sizes(s) <= s.len() * (i64::MAX as int),
    decreases s.len(),
{
    if s.len() > 0 {
        lemma_sum_sizes_bounds(s.drop_last());
    }
}

/// A label no record is grouped under sums to zero.
pub proof fn lemma_no_label_zero_sum(s: Seq<DiskRecord>, l: Seq<char>)
    requires
        !has_label(s, l),
    ensures
        type_sum(s, l) == 0,
    decreases s.len(),
{
    if s.len() > 0 {
        lemma_no_label_zero_sum(s.drop_last(), l);
    }
}

/// A per-label size sum obeys the same bounds as the total size sum.
pub proof fn lemma_type_sum_bounds(s: Seq<DiskRecord>, l: Seq<char>)
    ensures
        s.len() * (i64::MIN as int) <= type_sum(s, l) <= s.len() * (i64::MAX as int),
    decreases s.len(),
{
    if s.len() > 0 {
        lemma_type_sum_bounds(s.drop_last(), l);
    }
}

} // verus!
