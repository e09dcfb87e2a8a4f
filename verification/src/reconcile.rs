//! Metric reconciler: the pure transformation from one snapshot of remote
//! state into the exported gauge and counter values, plus the per-scrape
//! driver that chains event collection, dedup filtering and reconciliation.

use vstd::prelude::*;

use crate::dedup::{marked, new_records, SeenSet};
use crate::model::{
    clamp_i64, counter_add, count_failed, count_succeeded, effective_label, has_label,
    lemma_build_tallies_bounds, lemma_no_label_zero_sum, lemma_sum_sizes_bounds,
    lemma_type_sum_bounds, sum_cached_steps, sum_sizes, sum_total_steps, type_sum, DiskRecord,
    HistoryEvent, HistoryEventKind, Identity, ScrapeData,
};
use crate::registry::{
    distinct_labels, label_value, lemma_label_value_at_index, lemma_label_value_membership,
    lemma_label_value_push, lemma_label_value_update, MetricsRegistry,
};
use crate::model::BuildRecord;

verus! {

/// The records carried by the `Complete` events of `events`, in order.
pub open spec fn completed_records(events: Seq<HistoryEvent>) -> Seq<BuildRecord>
    decreases events.len(),
{
    if events.len() == 0 {
        Seq::empty()
    } else {
        let head: Seq<BuildRecord> = match events.first().record {
            Option::Some(r) => if events.first().kind is Complete {
                seq![r]
            } else {
                Seq::empty()
            },
            Option::None => Seq::empty(),
        };
        head + completed_records(events.drop_first())
    }
}

/// Keep the build records of the `Complete` events of the history stream;
/// update and delete events carry nothing to count.
pub fn collect_completed(events: Vec<HistoryEvent>) -> (completed: Vec<BuildRecord>)
    ensures
        completed@ == completed_records(events@),
{
    let mut remaining = events;
    let ghost all = remaining@;
    let mut out: Vec<BuildRecord> = Vec::new();
    proof {
        assert(all.skip(0) =~= all);
    }
    let ghost mut done: int = 0;
    while remaining.len() > 0
        invariant
            0 <= done <= all.len(),
            remaining@ == all.skip(done),
            completed_records(all) == out@ + completed_records(remaining@),
        decreases remaining@.len(),
    {
        let ghost pre_remaining = remaining@;
        let ghost out_pre = out@;
        let ev = remaining.remove(0);
        let ghost ev0 = ev;
        proof {
            assert(pre_remaining.first() == ev0);
            assert(pre_remaining.drop_first() =~= remaining@);
            assert(all.skip(done + 1) =~= remaining@);
        }
        let is_complete = match ev.kind {
            HistoryEventKind::Complete => true,
            _ => false,
        };
        if is_complete {
            if let Option::Some(rec) = ev.record {
                out.push(rec);
            }
        }
        proof {
            done = done + 1;
            match ev0.record {
                Option::Some(r) => {
                    if ev0.kind is Complete {
                        assert(completed_records(pre_remaining) == seq![r] + completed_records(
                            remaining@,
                        ));
                        assert((out_pre + seq![r]) + completed_records(remaining@) =~= out_pre + (
                        seq![r] + completed_records(remaining@)));
                    } else {
                        assert(completed_records(pre_remaining) == Seq::<BuildRecord>::empty()
                            + completed_records(remaining@));
                        assert(Seq::<BuildRecord>::empty() + completed_records(remaining@)
                            =~= completed_records(remaining@));
                    }
                },
                Option::None => {
                    assert(completed_records(pre_remaining) == Seq::<BuildRecord>::empty()
                        + completed_records(remaining@));
                    assert(Seq::<BuildRecord>::empty() + completed_records(remaining@)
                        =~= completed_records(remaining@));
                },
            }
        }
    }
    proof {
        assert(out@ + completed_records(remaining@) =~= out@);
    }
    out
}

/// Sum of the exported by-type gauge values of `s`.
pub open spec fn group_total(s: Seq<(String, i64)>) -> int
    decreases s.len(),
{
    if s.len() == 0 {
        0
    } else {
        group_total(s.drop_last()) + s.last().1
    }
}

/// Sum of the values of a wide-accumulator group list.
pub open spec fn acc_total(s: Seq<(String, i128)>) -> int
    decreases s.len(),
{
    if s.len() == 0 {
        0
    } else {
        acc_total(s.drop_last()) + s.last().1
    }
}

proof fn lemma_acc_total_update(s: Seq<(String, i128)>, k: int, p: (String, i128))
    requires
        0 <= k < s.len(),
    ensures
        acc_total(s.update(k, p)) == acc_total(s) - s[k].1 + p.1,
    decreases s.len(),
{
    let t = s.update(k, p);
    if k == s.len() - 1 {
        assert(t.drop_last() =~= s.drop_last());
    } else {
        assert(t.last() == s.last());
        assert(t.drop_last() =~= s.drop_last().update(k, p));
        assert(s.drop_last()[k] == s[k]);
        lemma_acc_total_update(s.drop_last(), k, p);
    }
}

proof fn lemma_acc_total_push(s: Seq<(String, i128)>, p: (String, i128))
    ensures
        acc_total(s.push(p)) == acc_total(s) + p.1,
{
    assert(s.push(p).drop_last() =~= s);
}

/// Pointwise clamping of the accumulated group values: the exported list
/// keeps the labels, clamps each value, and keeps the sum whenever no value
/// was clamped.
proof fn lemma_groups_from_acc(s: Seq<(String, i128)>, t: Seq<(String, i64)>)
    requires
        s.len() == t.len(),
        forall|m: int| 0 <= m < s.len() ==> #[trigger] t[m].0@ == s[m].0@,
        forall|m: int| 0 <= m < s.len() ==> #[trigger] t[m].1 == clamp_i64(s[m].1 as int),
    ensures
        forall|l: Seq<char>|
            #[trigger] label_value(t, l) == match label_value(s, l) {
                Option::Some(v) => Option::Some(clamp_i64(v as int)),
                Option::None => Option::<i64>::None,
            },
        (forall|m: int|
            0 <= m < s.len() ==> i64::MIN <= #[trigger] s[m].1 <= i64::MAX) ==> group_total(t)
            == acc_total(s),
    decreases s.len(),
{
    if s.len() > 0 {
        assert forall|m: int| 0 <= m < s.len() - 1 implies #[trigger] t.drop_last()[m].0@
            == s.drop_last()[m].0@ && t.drop_last()[m].1 == clamp_i64(
            s.drop_last()[m].1 as int,
        ) by {
            assert(t.drop_last()[m] == t[m]);
            assert(s.drop_last()[m] == s[m]);
        }
        lemma_groups_from_acc(s.drop_last(), t.drop_last());
        assert(t.last().0@ == s.last().0@);
        assert forall|l: Seq<char>| #[trigger] label_value(t, l) == (match label_value(s, l) {
            Option::Some(v) => Option::Some(clamp_i64(v as int)),
            Option::None => Option::<i64>::None,
        }) by {
            if s.last().0@ != l {
                assert(label_value(t, l) == label_value(t.drop_last(), l));
                assert(label_value(s, l) == label_value(s.drop_last(), l));
            }
        }
    }
}

/// Group the disk-usage records by record-type label, with the label
/// `unknown` standing in for an empty one. Each label's exported value is
/// the sum of the sizes in its group, clamped into the `i64` range; as long
/// as no group sum overflows, the group values add up to the total size of
/// all records.
pub fn group_by_type(disk: &Vec<DiskRecord>) -> (groups: Vec<(String, i64)>)
    ensures
        distinct_labels(groups@),
        forall|l: Seq<char>|
            #[trigger] label_value(groups@, l) == if has_label(disk@, l) {
                Option::Some(clamp_i64(type_sum(disk@, l)))
            } else {
                Option::<i64>::None
            },
        (forall|l: Seq<char>|
            has_label(disk@, l) ==> i64::MIN <= #[trigger] type_sum(disk@, l)
                <= i64::MAX) ==> group_total(groups@) == sum_sizes(disk@),
{
    let n = disk.len();
    let mut acc: Vec<(String, i128)> = Vec::new();
    let mut i: usize = 0;
    proof {
        assert(disk@.take(0) =~= Seq::<DiskRecord>::empty());
        assert(acc@ =~= Seq::<(String, i128)>::empty());
    }
    while i < n
        invariant
            n == disk@.len(),
            0 <= i <= n,
            distinct_labels(acc@),
            forall|m: int|
                0 <= m < acc@.len() ==> has_label(
                    disk@.take(i as int),
                    #[trigger] acc@[m].0@,
                ),
            forall|m: int|
                0 <= m < acc@.len() ==> #[trigger] acc@[m].1 as int == type_sum(
                    disk@.take(i as int),
                    acc@[m].0@,
                ),
            forall|l: Seq<char>|
                #[trigger] has_label(disk@.take(i as int), l) ==> label_value(acc@, l) is Some,
            acc_total(acc@) == sum_sizes(disk@.take(i as int)),
        decreases n - i,
    {
        let ghost pfx = disk@.take(i as int);
        let ghost pfx1 = disk@.take(i + 1);
        let ghost el = effective_label(disk@[i as int].record_type@);
        let ghost sz = disk@[i as int].size as int;
        proof {
            assert(pfx1.drop_last() =~= pfx);
            assert(pfx1.last() == disk@[i as int]);
        }
        let label_s: String = if disk[i].record_type.as_str().is_empty() {
            "unknown".to_owned()
        } else {
            disk[i].record_type.clone()
        };
        proof {
            assert(label_s@ == el);
        }
        let m = acc.len();
        let mut j: usize = 0;
        let mut found = false;
        while j < m
            invariant_except_break
                m == acc@.len(),
                0 <= j <= m,
                !found,
                forall|k: int| 0 <= k < j ==> acc@[k].0@ != label_s@,
            ensures
                0 <= j <= m,
                m == acc@.len(),
                found ==> j < m && acc@[j as int].0@ == label_s@,
                !found ==> forall|k: int| 0 <= k < m ==> acc@[k].0@ != label_s@,
            decreases m - j,
        {
            if acc[j].0 == label_s {
                found = true;
                break ;
            }
            j += 1;
        }
        let ghost acc_pre = acc@;
        if found {
            proof {
                lemma_type_sum_bounds(pfx, el);
            }
            let updated: i128 = acc[j].1 + disk[i].size as i128;
            proof {
                lemma_label_value_update(acc@, j as int, (label_s, updated));
                lemma_acc_total_update(acc@, j as int, (label_s, updated));
            }
            acc.set(j, (label_s, updated));
            proof {
                assert forall|m2: int| 0 <= m2 < acc@.len() implies #[trigger] acc@[m2].1 as int
                    == type_sum(pfx1, acc@[m2].0@) by {
                    if m2 != j {
                        assert(acc@[m2] == acc_pre[m2]);
                        assert(acc@[m2].0@ != el);
                    }
                }
                assert forall|l: Seq<char>| #[trigger] has_label(pfx1, l) implies label_value(
                    acc@,
                    l,
                ) is Some by {
                    if l == el {
                        assert(label_value(acc@, l) == Option::Some(updated));
                    } else {
                        assert(has_label(pfx, l));
                        assert(label_value(acc_pre, l) is Some);
                        assert(label_value(acc@, l) == label_value(acc_pre, l));
                    }
                }
            }
        } else {
            proof {
                if has_label(pfx, el) {
                    lemma_label_value_membership(acc_pre, el);
                    let k = choose|k: int| 0 <= k < acc_pre.len() && acc_pre[k].0@ == el;
                    assert(false);
                }
                lemma_no_label_zero_sum(pfx, el);
                lemma_label_value_push(acc@, (label_s, disk@[i as int].size as i128));
                lemma_acc_total_push(acc@, (label_s, disk@[i as int].size as i128));
            }
            acc.push((label_s, disk[i].size as i128));
            proof {
                assert forall|m2: int| 0 <= m2 < acc@.len() implies #[trigger] acc@[m2].1 as int
                    == type_sum(pfx1, acc@[m2].0@) by {
                    if m2 < acc_pre.len() {
                        assert(acc@[m2] == acc_pre[m2]);
                        assert(acc@[m2].0@ != el);
                    }
                }
                assert forall|l: Seq<char>| #[trigger] has_label(pfx1, l) implies label_value(
                    acc@,
                    l,
                ) is Some by {
                    if l == el {
                        assert(label_value(acc@, l) is Some);
                    } else {
                        assert(has_label(pfx, l));
                        assert(label_value(acc_pre, l) is Some);
                        assert(label_value(acc@, l) == label_value(acc_pre, l));
                    }
                }
            }
        }
        i += 1;
    }
    proof {
        assert(disk@.take(n as int) =~= disk@);
    }
    let ghost accs = acc@;
    let mut groups: Vec<(String, i64)> = Vec::new();
    let mut j: usize = 0;
    while j < acc.len()
        invariant
            acc@ == accs,
            0 <= j <= accs.len(),
            groups@.len() == j,
            forall|m: int| 0 <= m < j ==> #[trigger] groups@[m].0@ == accs[m].0@,
            forall|m: int| 0 <= m < j ==> #[trigger] groups@[m].1 == clamp_i64(accs[m].1 as int),
        decreases accs.len() - j,
    {
        let v = acc[j].1;
        let clamped: i64 = if v > i64::MAX as i128 {
            i64::MAX
        } else if v < i64::MIN as i128 {
            i64::MIN
        } else {
            v as i64
        };
        groups.push((acc[j].0.clone(), clamped));
        j += 1;
    }
    proof {
        lemma_groups_from_acc(accs, groups@);
        assert forall|l: Seq<char>| #[trigger] label_value(groups@, l) == (if has_label(disk@, l) {
            Option::Some(clamp_i64(type_sum(disk@, l)))
        } else {
            Option::<i64>::None
        }) by {
            lemma_label_value_membership(accs, l);
            if has_label(disk@, l) {
                let k = choose|k: int| 0 <= k < accs.len() && accs[k].0@ == l;
                lemma_label_value_at_index(accs, k);
            } else {
                if label_value(accs, l) is Some {
                    let k = choose|k: int| 0 <= k < accs.len() && accs[k].0@ == l;
                    assert(has_label(disk@, accs[k].0@));
                    assert(false);
                }
            }
        }
        if forall|l: Seq<char>|
            has_label(disk@, l) ==> i64::MIN <= #[trigger] type_sum(disk@, l) <= i64::MAX {
            assert forall|m: int| 0 <= m < accs.len() implies i64::MIN <= #[trigger] accs[m].1
                <= i64::MAX by {
                assert(has_label(disk@, accs[m].0@));
            }
        }
    }
    groups
}

/// Total size of all disk-usage records, clamped into the `i64` range.
fn sum_disk_sizes(disk: &Vec<DiskRecord>) -> (total: i64)
    ensures
        total == clamp_i64(sum_sizes(disk@)),
{
    let n = disk.len();
    let mut acc: i128 = 0;
    let mut i: usize = 0;
    proof {
        assert(disk@.take(0) =~= Seq::<DiskRecord>::empty());
    }
    while i < n
        invariant
            n == disk@.len(),
            0 <= i <= n,
            acc as int == sum_sizes(disk@.take(i as int)),
        decreases n - i,
    {
        proof {
            lemma_sum_sizes_bounds(disk@.take(i as int));
            assert(disk@.take(i + 1).drop_last() =~= disk@.take(i as int));
            assert(disk@.take(i + 1).last() == disk@[i as int]);
        }
        acc = acc + disk[i].size as i128;
        i += 1;
    }
    proof {
        assert(disk@.take(n as int) =~= disk@);
    }
    if acc > i64::MAX as i128 {
        i64::MAX
    } else if acc < i64::MIN as i128 {
        i64::MIN
    } else {
        acc as i64
    }
}

/// Count successes and failures and sum the step counters of one batch of
/// new build records.
fn tally_builds(builds: &Vec<BuildRecord>) -> (t: (u64, u64, u128, u128))
    ensures
        t.0 as int == count_succeeded(builds@),
        t.1 as int == count_failed(builds@),
        t.2 as int == sum_cached_steps(builds@),
        t.3 as int == sum_total_steps(builds@),
{
    let n = builds.len();
    let mut succeeded: u64 = 0;
    let mut failed: u64 = 0;
    let mut cached: u128 = 0;
    let mut total: u128 = 0;
    let mut i: usize = 0;
    proof {
        assert(builds@.take(0) =~= Seq::<BuildRecord>::empty());
    }
    while i < n
        invariant
            n == builds@.len(),
            0 <= i <= n,
            succeeded as int == count_succeeded(builds@.take(i as int)),
            failed as int == count_failed(builds@.take(i as int)),
            cached as int == sum_cached_steps(builds@.take(i as int)),
            total as int == sum_total_steps(builds@.take(i as int)),
        decreases n - i,
    {
        proof {
            lemma_build_tallies_bounds(builds@.take(i as int));
            assert(builds@.take(i + 1).drop_last() =~= builds@.take(i as int));
            assert(builds@.take(i + 1).last() == builds@[i as int]);
        }
        let ok = match builds[i].error {
            Option::None => true,
            Option::Some(e) => e.code == 0,
        };
        if ok {
            succeeded += 1;
        } else {
            failed += 1;
        }
        cached = cached + builds[i].cached_steps as u128;
        total = total + builds[i].total_steps as u128;
        i += 1;
    }
    proof {
        assert(builds@.take(n as int) =~= builds@);
    }
    (succeeded, failed, cached, total)
}

/// Move a counter forward by `d`, clamping at the top of the range so that
/// it never wraps backwards.
fn add_counter(c: u64, d: u128) -> (r: u64)
    ensures
        r == counter_add(c, d as int),
{
    if d > (u64::MAX - c) as u128 {
        u64::MAX
    } else {
        c + (d as u64)
    }
}

/// How one reconciliation changes the registry: gauges are overwritten from
/// the snapshot alone (the identity gauge and the by-type labels absent from
/// this snapshot keep their previous value), counters move forward by
/// exactly what the batch of new build records adds.
pub open spec fn reconcile_rel(
    pre: MetricsRegistry,
    post: MetricsRegistry,
    identity: Option<Identity>,
    worker_count: u64,
    disk: Seq<DiskRecord>,
    builds: Seq<BuildRecord>,
) -> bool {
    &&& post.info == (if identity is Some {
        identity
    } else {
        pre.info
    })
    &&& post.workers_total == Option::Some(worker_count)
    &&& post.cache_records_total == Option::Some(disk.len() as u64)
    &&& post.cache_size_bytes == Option::Some(clamp_i64(sum_sizes(disk)))
    &&& (forall|l: Seq<char>|
        #[trigger] post.type_gauge(l) == if has_label(disk, l) {
            Option::Some(clamp_i64(type_sum(disk, l)))
        } else {
            pre.type_gauge(l)
        })
    &&& post.builds_total == counter_add(pre.builds_total, builds.len() as int)
    &&& post.builds_succeeded_total == counter_add(
        pre.builds_succeeded_total,
        count_succeeded(builds),
    )
    &&& post.builds_failed_total == counter_add(pre.builds_failed_total, count_failed(builds))
    &&& post.builds_cached_steps_total == counter_add(
        pre.builds_cached_steps_total,
        sum_cached_steps(builds),
    )
    &&& post.builds_total_steps_total == counter_add(
        pre.builds_total_steps_total,
        sum_total_steps(builds),
    )
}

/// Reconcile one snapshot into the registry: overwrite the gauges, group
/// the disk records by type, and move every build counter forward by what
/// the already-deduplicated batch adds. Total over its inputs: no input is
/// rejected and nothing here can fail.
pub fn scrape_and_record(
    reg: &mut MetricsRegistry,
    identity: Option<Identity>,
    worker_count: u64,
    disk: Vec<DiskRecord>,
    builds: Vec<BuildRecord>,
)
    ensures
        reconcile_rel(*old(reg), *final(reg), identity, worker_count, disk@, builds@),
{
    let groups = group_by_type(&disk);
    let ghost gseq = groups@;
    let n = groups.len();
    let mut k: usize = 0;
    proof {
        assert(gseq.take(0) =~= Seq::<(String, i64)>::empty());
    }
    while k < n
        invariant
            n == groups@.len(),
            groups@ == gseq,
            0 <= k <= n,
            forall|l: Seq<char>|
                #[trigger] label_value(gseq, l) == (if has_label(disk@, l) {
                    Option::Some(clamp_i64(type_sum(disk@, l)))
                } else {
                    Option::<i64>::None
                }),
            forall|l: Seq<char>|
                #[trigger] reg.type_gauge(l) == (match label_value(gseq.take(k as int), l) {
                    Option::Some(v) => Option::Some(v),
                    Option::None => old(reg).type_gauge(l),
                }),
            reg.info == old(reg).info,
            reg.workers_total == old(reg).workers_total,
            reg.cache_records_total == old(reg).cache_records_total,
            reg.cache_size_bytes == old(reg).cache_size_bytes,
            reg.builds_total == old(reg).builds_total,
            reg.builds_succeeded_total == old(reg).builds_succeeded_total,
            reg.builds_failed_total == old(reg).builds_failed_total,
            reg.builds_cached_steps_total == old(reg).builds_cached_steps_total,
            reg.builds_total_steps_total == old(reg).builds_total_steps_total,
        decreases n - k,
    {
        proof {
            assert(gseq.take(k + 1).drop_last() =~= gseq.take(k as int));
            assert(gseq.take(k + 1).last() == gseq[k as int]);
        }
        let label_s = groups[k].0.clone();
        let value = groups[k].1;
        reg.set_type_gauge(label_s, value);
        k += 1;
    }
    let ghost gauges_done = reg.by_type@;
    proof {
        assert(gseq.take(n as int) =~= gseq);
        assert forall|l: Seq<char>| #[trigger] label_value(gauges_done, l) == (if has_label(
            disk@,
            l,
        ) {
            Option::Some(clamp_i64(type_sum(disk@, l)))
        } else {
            old(reg).type_gauge(l)
        }) by {
            assert(label_value(gauges_done, l) == reg.type_gauge(l));
            assert(label_value(gseq, l) == (if has_label(disk@, l) {
                Option::Some(clamp_i64(type_sum(disk@, l)))
            } else {
                Option::<i64>::None
            }));
        }
    }
    if identity.is_some() {
        reg.info = identity;
    }
    reg.workers_total = Option::Some(worker_count);
    reg.cache_records_total = Option::Some(disk.len() as u64);
    let total_size = sum_disk_sizes(&disk);
    reg.cache_size_bytes = Option::Some(total_size);
    let tallies = tally_builds(&builds);
    proof {
        lemma_build_tallies_bounds(builds@);
    }
    reg.builds_total = add_counter(reg.builds_total, builds.len() as u128);
    reg.builds_succeeded_total = add_counter(reg.builds_succeeded_total, tallies.0 as u128);
    reg.builds_failed_total = add_counter(reg.builds_failed_total, tallies.1 as u128);
    reg.builds_cached_steps_total = add_counter(reg.builds_cached_steps_total, tallies.2);
    reg.builds_total_steps_total = add_counter(reg.builds_total_steps_total, tallies.3);
    proof {
        assert forall|l: Seq<char>| #[trigger] reg.type_gauge(l) == (if has_label(disk@, l) {
            Option::Some(clamp_i64(type_sum(disk@, l)))
        } else {
            old(reg).type_gauge(l)
        }) by {
            assert(reg.by_type@ == gauges_done);
            assert(reg.type_gauge(l) == label_value(gauges_done, l));
        }
    }
}

/// Apply the outcome of one scrape. A failed round of remote calls leaves
/// the tracker and every exported metric exactly as they were; a successful
/// one collects the completed builds from the history window, keeps only
/// the references never counted before, and reconciles the snapshot.
pub fn record_scrape(seen: &mut SeenSet, reg: &mut MetricsRegistry, outcome: Option<ScrapeData>)
    ensures
        match outcome {
            Option::None => *final(seen) == *old(seen) && *final(reg) == *old(reg),
            Option::Some(data) => {
                &&& final(seen)@ == marked(old(seen)@, completed_records(data.events@))
                &&& reconcile_rel(
                    *old(reg),
                    *final(reg),
                    data.identity,
                    data.worker_count,
                    data.disk@,
                    new_records(old(seen)@, completed_records(data.events@)),
                )
            },
        },
{
    match outcome {
        Option::None => {},
        Option::Some(data) => {
            let ScrapeData { identity, worker_count, disk, events } = data;
            let completed = collect_completed(events);
            let fresh = seen.filter_new(completed);
            scrape_and_record(reg, identity, worker_count, disk, fresh);
        },
    }
}

/// Feeding the same snapshot to the reconciler twice doubles the counters
/// and overwrites the gauges identically: counters are strictly additive,
/// gauges are idempotent per call. Stated away from the top of the counter
/// range, where the clamped additions are exact.
pub proof fn lemma_reconcile_twice(
    r0: MetricsRegistry,
    r1: MetricsRegistry,
    r2: MetricsRegistry,
    identity: Option<Identity>,
    worker_count: u64,
    disk: Seq<DiskRecord>,
    builds: Seq<BuildRecord>,
)
    requires
        reconcile_rel(r0, r1, identity, worker_count, disk, builds),
        reconcile_rel(r1, r2, identity, worker_count, disk, builds),
        r0.builds_total + 2 * builds.len() <= u64::MAX,
        r0.builds_succeeded_total + 2 * count_succeeded(builds) <= u64::MAX,
        r0.builds_failed_total + 2 * count_failed(builds) <= u64::MAX,
        r0.builds_cached_steps_total + 2 * sum_cached_steps(builds) <= u64::MAX,
        r0.builds_total_steps_total + 2 * sum_total_steps(builds) <= u64::MAX,
    ensures
        r2.builds_total == r0.builds_total + 2 * builds.len(),
        r2.builds_succeeded_total == r0.builds_succeeded_total + 2 * count_succeeded(builds),
        r2.builds_failed_total == r0.builds_failed_total + 2 * count_failed(builds),
        r2.builds_cached_steps_total == r0.builds_cached_steps_total + 2 * sum_cached_steps(
            builds,
        ),
        r2.builds_total_steps_total == r0.builds_total_steps_total + 2 * sum_total_steps(builds),
        r2.info == r1.info,
        r2.workers_total == r1.workers_total,
        r2.cache_records_total == r1.cache_records_total,
        r2.cache_size_bytes == r1.cache_size_bytes,
        forall|l: Seq<char>| #[trigger] r2.type_gauge(l) == r1.type_gauge(l),
{
    lemma_build_tallies_bounds(builds);
}

} // verus!
