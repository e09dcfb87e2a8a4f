//! Dedup tracker: a process-lifetime set of build references already
//! counted. Marking is the atomic test for "is this build new", which keeps
//! the counters idempotent across overlapping history windows.

use vstd::prelude::*;

use crate::model::BuildRecord;

verus! {

/// Monotonically growing set of build reference strings already counted.
/// Created empty at process start and never pruned.
pub struct SeenSet {
    refs: Vec<String>,
}

impl View for SeenSet {
    type V = Set<Seq<char>>;

    closed spec fn view(&self) -> Set<Seq<char>> {
        Set::new(|r: Seq<char>| exists|i: int| 0 <= i < self.refs@.len() && self.refs@[i]@ == r)
    }
}

/// The references of `records` that are new with respect to `seen`, keeping
/// only the first occurrence of each reference, in order.
pub open spec fn new_records(seen: Set<Seq<char>>, records: Seq<BuildRecord>) -> Seq<BuildRecord>
    decreases records.len(),
{
    if records.len() == 0 {
        Seq::empty()
    } else if seen.contains(records.first().reference@) {
        new_records(seen, records.drop_first())
    } else {
        seq![records.first()] + new_records(
            seen.insert(records.first().reference@),
            records.drop_first(),
        )
    }
}

/// The seen set after every reference of `records` has been marked.
pub open spec fn marked(seen: Set<Seq<char>>, records: Seq<BuildRecord>) -> Set<Seq<char>>
    decreases records.len(),
{
    if records.len() == 0 {
        seen
    } else {
        marked(seen.insert(records.first().reference@), records.drop_first())
    }
}

impl SeenSet {
    /// The empty tracker, created once at process start.
    pub fn new() -> (s: SeenSet)
        ensures
            s@ == Set::<Seq<char>>::empty(),
    {
        let s = SeenSet { refs: Vec::new() };
        proof {
            assert(s@ =~= Set::<Seq<char>>::empty());
        }
        s
    }

    /// Records `r` and reports whether it was new: true only the first time
    /// a given reference is presented over the life of the tracker.
    pub fn mark_if_new(&mut self, r: &String) -> (is_new: bool)
        ensures
            is_new == !old(self)@.contains(r@),
            final(self)@ == old(self)@.insert(r@),
    {
        let n = self.refs.len();
        let mut i: usize = 0;
        while i < n
            invariant
                n == self.refs@.len(),
                0 <= i <= n,
                forall|j: int| 0 <= j < i ==> self.refs@[j]@ != r@,
                *self == *old(self),
            decreases n - i,
        {
            if self.refs[i] == *r {
                proof {
                    assert(old(self)@.contains(r@));
                    assert(final(self)@ =~= old(self)@.insert(r@));
                }
                return false;
            }
            i += 1;
        }
        proof {
            assert(!old(self)@.contains(r@));
        }
        self.refs.push(r.clone());
        proof {
            assert forall|s: Seq<char>| final(self)@.contains(s) implies old(self)@.insert(
                r@,
            ).contains(s) by {
                let k = choose|k: int| 0 <= k < self.refs@.len() && self.refs@[k]@ == s;
                if k < old(self).refs@.len() {
                    assert(old(self)@.contains(s));
                }
            }
            assert forall|s: Seq<char>| old(self)@.insert(r@).contains(s) implies final(self)@.contains(
                s,
            ) by {
                if s == r@ {
                    assert(self.refs@[old(self).refs@.len() as int]@ == s);
                } else {
                    let k = choose|k: int|
                        0 <= k < old(self).refs@.len() && old(self).refs@[k]@ == s;
                    assert(self.refs@[k]@ == s);
                }
            }
            assert(final(self)@ =~= old(self)@.insert(r@));
        }
        true
    }

    /// One non-blocking filter-and-mark pass over an already collected batch
    /// of completed builds: keeps exactly the records whose reference is
    /// presented here for the first time, and marks every reference seen.
    pub fn filter_new(&mut self, records: Vec<BuildRecord>) -> (kept: Vec<BuildRecord>)
        ensures
            kept@ == new_records(old(self)@, records@),
            final(self)@ == marked(old(self)@, records@),
    {
        let mut remaining = records;
        let mut kept: Vec<BuildRecord> = Vec::new();
        let ghost all = remaining@;
        proof {
            assert(all.skip(0) =~= all);
        }
        let ghost mut done: int = 0;
        while remaining.len() > 0
            invariant
                0 <= done <= all.len(),
                remaining@ == all.skip(done),
                new_records(old(self)@, all) == kept@ + new_records(self@, remaining@),
                marked(old(self)@, all) == marked(self@, remaining@),
            decreases remaining@.len(),
        {
            let rec = remaining.remove(0);
            let ghost pre = self@;
            let ghost pre_remaining = seq![rec] + remaining@;
            proof {
                assert(pre_remaining =~= all.skip(done));
                assert(pre_remaining.drop_first() =~= remaining@);
                assert(all.skip(done + 1) =~= remaining@);
            }
            let ghost kept_pre = kept@;
            let is_new = self.mark_if_new(&rec.reference);
            if is_new {
                kept.push(rec);
            }
            proof {
                done = done + 1;
                assert(pre_remaining.first() == rec);
                if pre.contains(rec.reference@) {
                    assert(self@ =~= pre);
                    assert(new_records(pre, pre_remaining) == new_records(self@, remaining@));
                } else {
                    assert(new_records(pre, pre_remaining) == seq![rec] + new_records(
                        self@,
                        remaining@,
                    ));
                    assert((kept_pre + seq![rec]) + new_records(self@, remaining@) =~= kept_pre + (
                    seq![rec] + new_records(self@, remaining@)));
                }
            }
        }
        proof {
            assert(remaining@ =~= Seq::<BuildRecord>::empty());
            assert(kept@ + new_records(self@, remaining@) =~= kept@);
        }
        kept
    }
}

/// No reference already seen is kept; the kept references are pairwise
/// distinct; every kept record comes from the batch; and afterwards the
/// tracker covers the old set and every reference of the batch.
pub proof fn lemma_filter_new_refs(seen: Set<Seq<char>>, records: Seq<BuildRecord>)
    ensures
        forall|i: int|
            0 <= i < new_records(seen, records).len() ==> !seen.contains(
                #[trigger] new_records(seen, records)[i].reference@,
            ),
        forall|i: int, j: int|
            0 <= i < j < new_records(seen, records).len() ==> new_records(seen, records)[i].reference@
                != new_records(seen, records)[j].reference@,
        forall|i: int|
            0 <= i < new_records(seen, records).len() ==> records.contains(
                #[trigger] new_records(seen, records)[i],
            ),
        forall|i: int|
            0 <= i < records.len() ==> marked(seen, records).contains(
                #[trigger] records[i].reference@,
            ),
        forall|r: Seq<char>| seen.contains(r) ==> marked(seen, records).contains(r),
    decreases records.len(),
{
    if records.len() > 0 {
        let first = records.first();
        let rest = records.drop_first();
        if seen.contains(first.reference@) {
            lemma_filter_new_refs(seen, rest);
            assert(seen.insert(first.reference@) =~= seen);
            assert(marked(seen, records) == marked(seen, rest));
            assert forall|i: int| 0 <= i < records.len() implies marked(seen, records).contains(
                #[trigger] records[i].reference@,
            ) by {
                if i == 0 {
                    assert(seen.contains(first.reference@));
                } else {
                    assert(rest[i - 1] == records[i]);
                }
            }
            assert forall|i: int|
                0 <= i < new_records(seen, records).len() implies records.contains(
                #[trigger] new_records(seen, records)[i],
            ) by {
                assert(rest.contains(new_records(seen, rest)[i]));
                let k = choose|k: int| 0 <= k < rest.len() && rest[k] == new_records(seen, rest)[i];
                assert(records[k + 1] == rest[k]);
            }
        } else {
            let seen1 = seen.insert(first.reference@);
            lemma_filter_new_refs(seen1, rest);
            let kept = new_records(seen, records);
            let kept_rest = new_records(seen1, rest);
            assert(kept == seq![first] + kept_rest);
            assert forall|i: int| 0 <= i < kept.len() implies !seen.contains(
                #[trigger] kept[i].reference@,
            ) by {
                if i > 0 {
                    assert(kept[i] == kept_rest[i - 1]);
                    assert(!seen1.contains(kept_rest[i - 1].reference@));
                }
            }
            assert forall|i: int, j: int| 0 <= i < j < kept.len() implies kept[i].reference@
                != kept[j].reference@ by {
                if i == 0 {
                    assert(kept[j] == kept_rest[j - 1]);
                    assert(!seen1.contains(kept_rest[j - 1].reference@));
                } else {
                    assert(kept[i] == kept_rest[i - 1]);
                    assert(kept[j] == kept_rest[j - 1]);
                }
            }
            assert forall|i: int| 0 <= i < kept.len() implies records.contains(
                #[trigger] kept[i],
            ) by {
                if i == 0 {
                    assert(records[0] == first);
                } else {
                    assert(kept[i] == kept_rest[i - 1]);
                    assert(rest.contains(kept_rest[i - 1]));
                    let k = choose|k: int| 0 <= k < rest.len() && rest[k] == kept_rest[i - 1];
                    assert(records[k + 1] == rest[k]);
                }
            }
            assert forall|i: int| 0 <= i < records.len() implies marked(seen, records).contains(
                #[trigger] records[i].reference@,
            ) by {
                if i == 0 {
                    assert(seen1.contains(first.reference@));
                } else {
                    assert(rest[i - 1] == records[i]);
                }
            }
            assert forall|r: Seq<char>| seen.contains(r) implies marked(seen, records).contains(
                r,
            ) by {
                assert(seen1.contains(r));
                assert(marked(seen1, rest).contains(r));
            }
        }
    }
}

/// Overlapping windows never double-count: a reference filtered out of one
/// batch is never kept again by any later batch, so across two successive
/// scrapes the kept references are disjoint and each batch's kept references
/// are pairwise distinct.
pub proof fn lemma_overlapping_windows_disjoint(
    seen: Set<Seq<char>>,
    first_batch: Seq<BuildRecord>,
    second_batch: Seq<BuildRecord>,
)
    ensures
        forall|i: int, j: int|
            0 <= i < j < new_records(seen, first_batch).len() ==> new_records(seen, first_batch)[i].reference@
                != new_records(seen, first_batch)[j].reference@,
        forall|i: int, j: int|
            0 <= i < j < new_records(marked(seen, first_batch), second_batch).len() ==> new_records(
                marked(seen, first_batch),
                second_batch,
            )[i].reference@ != new_records(marked(seen, first_batch), second_batch)[j].reference@,
        forall|i: int, j: int|
            0 <= i < new_records(seen, first_batch).len() && 0 <= j < new_records(
                marked(seen, first_batch),
                second_batch,
            ).len() ==> new_records(seen, first_batch)[i].reference@ != new_records(
                marked(seen, first_batch),
                second_batch,
            )[j].reference@,
{
    lemma_filter_new_refs(seen, first_batch);
    let seen1 = marked(seen, first_batch);
    lemma_filter_new_refs(seen1, second_batch);
    let kept1 = new_records(seen, first_batch);
    let kept2 = new_records(seen1, second_batch);
    assert forall|i: int, j: int|
        0 <= i < kept1.len() && 0 <= j < kept2.len() implies kept1[i].reference@
        != kept2[j].reference@ by {
        assert(first_batch.contains(kept1[i]));
        let k = choose|k: int| 0 <= k < first_batch.len() && first_batch[k] == kept1[i];
        assert(seen1.contains(first_batch[k].reference@));
        assert(!seen1.contains(kept2[j].reference@));
    }
}

} // verus!
