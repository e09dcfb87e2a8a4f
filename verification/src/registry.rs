//! Exported metric state: point-in-time gauges overwritten each scrape and
//! counters that only move forward. Created once at process start, written
//! by the reconciler, read by the rendering path.

use vstd::prelude::*;

verus! {

use crate::model::Identity;

/// Value of label `l` in the association list `s`; the latest entry wins.
pub open spec fn label_value<V>(s: Seq<(String, V)>, l: Seq<char>) -> Option<V>
    decreases s.len(),
{
    if s.len() == 0 {
        Option::None
    } else if s.last().0@ == l {
        Option::Some(s.last().1)
    } else {
        label_value(s.drop_last(), l)
    }
}

/// Whether the labels of `s` are pairwise distinct.
pub open spec fn distinct_labels<V>(s: Seq<(String, V)>) -> bool {
    forall|i: int, j: int| 0 <= i < j < s.len() ==> s[i].0@ != s[j].0@
}

/// `label_value` is `Some` exactly for the labels that occur in the list,
/// and every value it returns stands at some index.
pub proof fn lemma_label_value_membership<V>(s: Seq<(String, V)>, l: Seq<char>)
    ensures
        label_value(s, l) is Some <==> exists|i: int| 0 <= i < s.len() && s[i].0@ == l,
        label_value(s, l) matches Option::Some(v) ==> exists|i: int|
            0 <= i < s.len() && s[i].0@ == l && s[i].1 == v,
    decreases s.len(),
{
    if s.len() > 0 {
        lemma_label_value_membership(s.drop_last(), l);
        if s.last().0@ == l {
            assert(s[s.len() - 1].0@ == l);
        } else {
            if label_value(s, l) is Some {
                let i = choose|i: int| 0 <= i < s.drop_last().len() && s.drop_last()[i].0@ == l;
                assert(s[i].0@ == l);
            }
            if exists|i: int| 0 <= i < s.len() && s[i].0@ == l {
                let i = choose|i: int| 0 <= i < s.len() && s[i].0@ == l;
                assert(s.drop_last()[i].0@ == l);
            }
        }
    }
}

/// When the labels are distinct, the value at a label is the value stored at
/// its index.
pub proof fn lemma_label_value_at_index<V>(s: Seq<(String, V)>, k: int)
    requires
        0 <= k < s.len(),
        distinct_labels(s),
    ensures
        label_value(s, s[k].0@) == Option::Some(s[k].1),
    decreases s.len(),
{
    if k < s.len() - 1 {
        assert(s[k].0@ != s[s.len() - 1].0@);
        assert(s.drop_last()[k] == s[k]);
        lemma_label_value_at_index(s.drop_last(), k);
    }
}

/// Removing one entry leaves the value of every other label alone.
pub proof fn lemma_label_value_remove<V>(s: Seq<(String, V)>, k: int)
    requires
        0 <= k < s.len(),
    ensures
        forall|l: Seq<char>|
            l != s[k].0@ ==> #[trigger] label_value(s.remove(k), l) == label_value(s, l),
    decreases s.len(),
{
    let t = s.remove(k);
    if k == s.len() - 1 {
        assert(t =~= s.drop_last());
    } else {
        assert(t.last() == s.last());
        assert(t.drop_last() =~= s.drop_last().remove(k));
        assert(s.drop_last()[k] == s[k]);
        lemma_label_value_remove(s.drop_last(), k);
        assert forall|l: Seq<char>| l != s[k].0@ implies #[trigger] label_value(t, l)
            == label_value(s, l) by {
            if t.last().0@ != l {
                assert(label_value(t, l) == label_value(t.drop_last(), l));
            }
        }
    }
}

/// Appending an entry gives its label its value and leaves every other
/// label's value alone.
pub proof fn lemma_label_value_append<V>(s: Seq<(String, V)>, p: (String, V))
    ensures
        forall|l: Seq<char>|
            #[trigger] label_value(s.push(p), l) == if l == p.0@ {
                Option::Some(p.1)
            } else {
                label_value(s, l)
            },
{
    let t = s.push(p);
    assert(t.last() == p);
    assert(t.drop_last() =~= s);
}

/// Replacing the single entry that carries a label rewrites that label's
/// value and leaves every other label's value alone.
pub proof fn lemma_label_value_update<V>(s: Seq<(String, V)>, k: int, p: (String, V))
    requires
        0 <= k < s.len(),
        s[k].0@ == p.0@,
        distinct_labels(s),
    ensures
        forall|l: Seq<char>|
            #[trigger] label_value(s.update(k, p), l) == if l == p.0@ {
                Option::Some(p.1)
            } else {
                label_value(s, l)
            },
        distinct_labels(s.update(k, p)),
    decreases s.len(),
{
    let t = s.update(k, p);
    assert(t.last() == if k == s.len() - 1 {
        p
    } else {
        s.last()
    });
    if k == s.len() - 1 {
        assert(t.drop_last() =~= s.drop_last());
        assert forall|l: Seq<char>| #[trigger] label_value(t, l) == (if l == p.0@ {
            Option::Some(p.1)
        } else {
            label_value(s, l)
        }) by {
            if l != p.0@ {
                assert(label_value(t, l) == label_value(s.drop_last(), l));
            } else {
                lemma_label_value_membership(s.drop_last(), l);
                if exists|i: int| 0 <= i < s.drop_last().len() && s.drop_last()[i].0@ == l {
                    let i = choose|i: int|
                        0 <= i < s.drop_last().len() && s.drop_last()[i].0@ == l;
                    assert(s[i].0@ == s[k].0@);
                    assert(false);
                }
            }
        }
    } else {
        assert(t.drop_last() =~= s.drop_last().update(k, p));
        assert(s.drop_last()[k] == s[k]);
        lemma_label_value_update(s.drop_last(), k, p);
        assert forall|l: Seq<char>| #[trigger] label_value(t, l) == (if l == p.0@ {
            Option::Some(p.1)
        } else {
            label_value(s, l)
        }) by {
            if t.last().0@ == l {
                assert(s.last().0@ == l);
                assert(s[k].0@ != s[s.len() - 1].0@);
            } else {
                assert(label_value(t, l) == label_value(t.drop_last(), l));
            }
        }
    }
}

/// Appending an entry with a fresh label gives that label its value and
/// leaves every other label's value alone.
pub proof fn lemma_label_value_push<V>(s: Seq<(String, V)>, p: (String, V))
    requires
        forall|i: int| 0 <= i < s.len() ==> s[i].0@ != p.0@,
        distinct_labels(s),
    ensures
        forall|l: Seq<char>|
            #[trigger] label_value(s.push(p), l) == if l == p.0@ {
                Option::Some(p.1)
            } else {
                label_value(s, l)
            },
        distinct_labels(s.push(p)),
{
    let t = s.push(p);
    assert(t.last() == p);
    assert(t.drop_last() =~= s);
    assert forall|i: int, j: int| 0 <= i < j < t.len() implies t[i].0@ != t[j].0@ by {
        if j < s.len() {
            assert(t[i] == s[i] && t[j] == s[j]);
        } else {
            assert(t[i] == s[i] && t[j] == p);
        }
    }
}

/// The externally visible metric state. Gauges hold the value of the latest
/// scrape that set them (`None` until one does); counters accumulate over
/// the life of the process and never decrease.
pub struct MetricsRegistry {
    /// `buildkit_info`: identity labels, set to 1 when present.
    pub info: Option<Identity>,
    /// `buildkit_workers_total`.
    pub workers_total: Option<u64>,
    /// `buildkit_cache_records_total`.
    pub cache_records_total: Option<u64>,
    /// `buildkit_cache_size_bytes`.
    pub cache_size_bytes: Option<i64>,
    /// `buildkit_cache_size_by_type_bytes`, one value per record-type label.
    pub by_type: Vec<(String, i64)>,
    /// `buildkit_builds_total`.
    pub builds_total: u64,
    /// `buildkit_builds_succeeded_total`.
    pub builds_succeeded_total: u64,
    /// `buildkit_builds_failed_total`.
    pub builds_failed_total: u64,
    /// `buildkit_builds_cached_steps_total`.
    pub builds_cached_steps_total: u64,
    /// `buildkit_builds_total_steps_total`.
    pub builds_total_steps_total: u64,
}

impl MetricsRegistry {
    /// The by-type gauge entries, as exported.
    pub open spec fn type_entries(self) -> Seq<(String, i64)> {
        self.by_type@
    }

    /// Value of the by-type size gauge for label `l`, if that label was ever
    /// set.
    pub open spec fn type_gauge(self, l: Seq<char>) -> Option<i64> {
        label_value(self.type_entries(), l)
    }

    /// Fresh registry: no gauge set, every counter at zero.
    pub fn new() -> (r: MetricsRegistry)
        ensures
            r.info is None,
            r.workers_total is None,
            r.cache_records_total is None,
            r.cache_size_bytes is None,
            forall|l: Seq<char>| r.type_gauge(l) is None,
            r.type_entries() == Seq::<(String, i64)>::empty(),
            r.builds_total == 0,
            r.builds_succeeded_total == 0,
            r.builds_failed_total == 0,
            r.builds_cached_steps_total == 0,
            r.builds_total_steps_total == 0,
    {
        let r = MetricsRegistry {
            info: Option::None,
            workers_total: Option::None,
            cache_records_total: Option::None,
            cache_size_bytes: Option::None,
            by_type: Vec::new(),
            builds_total: 0,
            builds_succeeded_total: 0,
            builds_failed_total: 0,
            builds_cached_steps_total: 0,
            builds_total_steps_total: 0,
        };
        proof {
            assert(r.by_type@ =~= Seq::<(String, i64)>::empty());
        }
        r
    }

    /// Overwrite (or first set) the by-type size gauge for one label.
    pub fn set_type_gauge(&mut self, label: String, value: i64)
        ensures
            forall|l: Seq<char>|
                #[trigger] final(self).type_gauge(l) == if l == label@ {
                    Option::Some(value)
                } else {
                    old(self).type_gauge(l)
                },
            final(self).info == old(self).info,
            final(self).workers_total == old(self).workers_total,
            final(self).cache_records_total == old(self).cache_records_total,
            final(self).cache_size_bytes == old(self).cache_size_bytes,
            final(self).builds_total == old(self).builds_total,
            final(self).builds_succeeded_total == old(self).builds_succeeded_total,
            final(self).builds_failed_total == old(self).builds_failed_total,
            final(self).builds_cached_steps_total == old(self).builds_cached_steps_total,
            final(self).builds_total_steps_total == old(self).builds_total_steps_total,
    {
        let n = self.by_type.len();
        let mut i: usize = 0;
        while i < n
            invariant
                n == self.by_type@.len(),
                0 <= i <= n,
                *self == *old(self),
            decreases n - i,
        {
            if self.by_type[i].0 == label {
                proof {
                    lemma_label_value_remove(self.by_type@, i as int);
                    lemma_label_value_append(self.by_type@.remove(i as int), (label, value));
                }
                let _ = self.by_type.remove(i);
                self.by_type.push((label, value));
                return ;
            }
            i += 1;
        }
        proof {
            lemma_label_value_append(self.by_type@, (label, value));
        }
        self.by_type.push((label, value));
    }

    /// Current value of the by-type size gauge for `label`, if set.
    pub fn cache_size_by_type(&self, label: &String) -> (r: Option<i64>)
        ensures
            r == self.type_gauge(label@),
    {
        let n = self.by_type.len();
        let mut i: usize = n;
        proof {
            assert(self.by_type@.take(n as int) =~= self.by_type@);
        }
        while i > 0
            invariant
                n == self.by_type@.len(),
                0 <= i <= n,
                label_value(self.by_type@, label@) == label_value(
                    self.by_type@.take(i as int),
                    label@,
                ),
            decreases i,
        {
            let ghost pfx = self.by_type@.take(i as int);
            proof {
                assert(pfx.last() == self.by_type@[i - 1]);
                assert(pfx.drop_last() =~= self.by_type@.take(i - 1));
            }
            if self.by_type[i - 1].0 == *label {
                return Option::Some(self.by_type[i - 1].1);
            }
            i -= 1;
        }
        proof {
            assert(self.by_type@.take(0) =~= Seq::<(String, i64)>::empty());
        }
        Option::None
    }

    /// All by-type gauge entries, for the rendering path.
    pub fn by_type_entries(&self) -> (r: &Vec<(String, i64)>)
        ensures
            r@ == self.type_entries(),
    {
        &self.by_type
    }
}

} // verus!
