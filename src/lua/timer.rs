use vstd::prelude::*;

verus! {

/// A pending timer: when it fires next, how often it repeats, and how many
/// firings are left (0: no limit).
#[derive(Debug, PartialEq, Eq, Structural, Clone, Copy)]
pub struct TimerEntry {
    pub id: u32,
    pub due: u64,
    pub interval: u64,
    pub remaining: u32,
}

/// `a` fires before `b`: an earlier deadline, or the same one and a smaller id.
pub open spec fn fires_before(a: TimerEntry, b: TimerEntry) -> bool {
    a.due < b.due || (a.due == b.due && a.id < b.id)
}

/// Entries in firing order, no two tied.
pub open spec fn in_firing_order(s: Seq<TimerEntry>) -> bool {
    forall|i: int, j: int| 0 <= i < j < s.len() ==> fires_before(s[i], s[j])
}

/// No id is pending twice.
pub open spec fn ids_unique(s: Seq<TimerEntry>) -> bool {
    forall|i: int, j: int| 0 <= i < s.len() && 0 <= j < s.len() && i != j ==> s[i].id != s[j].id
}

/// `a + b`, or `u64::MAX` where that does not fit.
pub open spec fn sat_add(a: u64, b: u64) -> u64 {
    if a + b > u64::MAX {
        u64::MAX
    } else {
        (a + b) as u64
    }
}

/// `e` once it has fired: `None` when that was its last firing, else the entry
/// moved one interval on with one firing less.
pub open spec fn after_firing(e: TimerEntry) -> Option<TimerEntry> {
    if e.remaining == 1 {
        None
    } else {
        Some(
            TimerEntry {
                due: sat_add(e.due, e.interval),
                remaining: if e.remaining == 0 {
                    0
                } else {
                    (e.remaining - 1) as u32
                },
                ..e
            },
        )
    }
}

/// The entries that the fired entries `fired` leave behind.
pub open spec fn refired(fired: Seq<TimerEntry>) -> Set<TimerEntry>
    decreases fired.len(),
{
    if fired.len() == 0 {
        Set::empty()
    } else {
        let rest = refired(fired.drop_last());
        match after_firing(fired.last()) {
            Some(e) => rest.insert(e),
            None => rest,
        }
    }
}

/// The pending timers, in firing order.
#[derive(Debug)]
pub struct TimerSchedule {
    pub entries: Vec<TimerEntry>,
}

fn saturating_add(a: u64, b: u64) -> (r: u64)
    ensures
        r == sat_add(a, b),
{
    if b > u64::MAX - a {
        u64::MAX
    } else {
        a + b
    }
}

impl TimerSchedule {
    pub open spec fn wf(&self) -> bool {
        &&& in_firing_order(self.entries@)
        &&& ids_unique(self.entries@)
    }

    pub fn new() -> (r: TimerSchedule)
        ensures
            r.wf(),
            r.entries@.len() == 0,
    {
        TimerSchedule { entries: Vec::new() }
    }

    /// Puts `e`, whose id is not pending, at its place in firing order.
    fn insert(&mut self, e: TimerEntry)
        requires
            old(self).wf(),
            forall|i: int| 0 <= i < old(self).entries@.len() ==> old(self).entries@[i].id != e.id,
        ensures
            final(self).wf(),
            final(self).entries@.to_set() == old(self).entries@.to_set().insert(e),
    {
        let ghost o = self.entries@;
        let mut j: usize = 0;
        while j < self.entries.len()
            invariant
                j <= self.entries.len(),
                self.entries@ == o,
                in_firing_order(o),
                forall|k: int| 0 <= k < j ==> fires_before(#[trigger] o[k], e),
            ensures
                j <= self.entries.len(),
                forall|k: int| 0 <= k < j ==> fires_before(#[trigger] o[k], e),
                j < self.entries.len() ==> !fires_before(o[j as int], e),
            decreases self.entries.len() - j,
        {
            let x = self.entries[j];
            if !(x.due < e.due || (x.due == e.due && x.id < e.id)) {
                break;
            }
            j += 1;
        }
        self.entries.insert(j, e);
        proof {
            let n = self.entries@;
            assert(n =~= o.insert(j as int, e));
            assert forall|a: int, b: int| 0 <= a < b < n.len() implies fires_before(n[a], n[b]) by {
                if b == j {
                } else if a == j {
                    assert(o[j as int].id != e.id);
                    assert(fires_before(o[j as int], o[b - 1]) || b - 1 == j);
                } else if a < j && b > j {
                    assert(fires_before(o[a], o[b - 1]));
                } else if b < j {
                    assert(fires_before(o[a], o[b]));
                } else {
                    assert(fires_before(o[a - 1], o[b - 1]));
                }
            }
            assert forall|a: int, b: int| 0 <= a < n.len() && 0 <= b < n.len() && a != b implies n[a].id != n[b].id by {
                if a != j && b != j {
                    let oa = if a < j { a } else { a - 1 };
                    let ob = if b < j { b } else { b - 1 };
                    assert(n[a] == o[oa] && n[b] == o[ob]);
                } else if a == j {
                    let ob = if b < j { b } else { b - 1 };
                    assert(n[b] == o[ob]);
                } else {
                    let oa = if a < j { a } else { a - 1 };
                    assert(n[a] == o[oa]);
                }
            }
            assert(n.to_set() =~= o.to_set().insert(e)) by {
                assert forall|x: TimerEntry| n.to_set().contains(x) implies o.to_set().insert(e).contains(x) by {
                    let i = choose|i: int| 0 <= i < n.len() && n[i] == x;
                    if i < j {
                        assert(o[i] == x);
                    } else if i > j {
                        assert(o[i - 1] == x);
                    }
                }
                assert forall|x: TimerEntry| o.to_set().insert(e).contains(x) implies n.to_set().contains(x) by {
                    if x == e {
                        assert(n[j as int] == x);
                    } else {
                        let i = choose|i: int| 0 <= i < o.len() && o[i] == x;
                        if i < j {
                            assert(n[i] == x);
                        } else {
                            assert(n[i + 1] == x);
                        }
                    }
                }
            }
        }
    }
}

impl TimerSchedule {
    /// Drops the timer `id`, if it is pending.
    pub fn remove(&mut self, id: u32)
        requires
            old(self).wf(),
        ensures
            final(self).wf(),
            final(self).entries@.to_set() == old(self).entries@.to_set().filter(|x: TimerEntry| x.id != id),
    {
        let ghost o = self.entries@;
        let mut kept: Vec<TimerEntry> = Vec::new();
        let mut i: usize = 0;
        while i < self.entries.len()
            invariant
                i <= self.entries.len(),
                self.entries@ == o,
                in_firing_order(o),
                ids_unique(o),
                in_firing_order(kept@),
                ids_unique(kept@),
                forall|a: int, m: int| 0 <= a < kept@.len() && i <= m < o.len() ==> fires_before(kept@[a], o[m]) && kept@[a].id != o[m].id,
                kept@.to_set() == o.subrange(0, i as int).to_set().filter(|x: TimerEntry| x.id != id),
            decreases self.entries.len() - i,
        {
            let x = self.entries[i];
            let ghost before = kept@;
            assert(forall|a: int| 0 <= a < kept@.len() ==> fires_before(kept@[a], o[i as int]) && kept@[a].id != o[i as int].id);
            if x.id != id {
                kept.push(x);
                proof {
                    assert(kept@ =~= before.push(x));
                    assert forall|a: int, b: int| 0 <= a < b < kept@.len() implies fires_before(kept@[a], kept@[b]) by {
                        if b == before.len() {
                            assert(fires_before(before[a], o[i as int]));
                        }
                    }
                    assert forall|a: int, b: int| 0 <= a < kept@.len() && 0 <= b < kept@.len() && a != b implies kept@[a].id != kept@[b].id by {
                        if b == before.len() {
                            assert(before[a].id != o[i as int].id);
                        } else if a == before.len() {
                            assert(before[b].id != o[i as int].id);
                        }
                    }
                }
            }
            proof {
                let pre = o.subrange(0, i as int);
                assert(o.subrange(0, i + 1) =~= pre.push(x));
                pre.lemma_push_to_set_commute(x);
                if x.id != id {
                    before.lemma_push_to_set_commute(x);
                    assert(kept@.to_set() == before.to_set().insert(x));
                } else {
                    assert(kept@ == before);
                }
                assert(kept@.to_set() =~= o.subrange(0, i + 1).to_set().filter(|y: TimerEntry| y.id != id));
                assert forall|a: int, m: int| 0 <= a < kept@.len() && i + 1 <= m < o.len() implies fires_before(kept@[a], o[m]) && kept@[a].id != o[m].id by {
                    if a == before.len() {
                        assert(kept@[a] == o[i as int]);
                        assert(fires_before(o[i as int], o[m]));
                        assert(o[i as int].id != o[m].id);
                    } else {
                        assert(kept@[a] == before[a]);
                    }
                }
            }
            i += 1;
        }
        assert(o.subrange(0, i as int) =~= o);
        self.entries = kept;
    }

    /// Schedules timer `id` to fire `delay` after `now`, then every `delay`,
    /// `count` times in all (0: without end); a pending timer of that id is
    /// replaced.
    pub fn add(&mut self, id: u32, now: u64, delay: u64, count: u32)
        requires
            old(self).wf(),
        ensures
            final(self).wf(),
            final(self).entries@.to_set() == old(self).entries@.to_set().filter(|x: TimerEntry| x.id != id).insert(
                TimerEntry { id, due: sat_add(now, delay), interval: delay, remaining: count },
            ),
    {
        self.remove(id);
        proof {
            assert forall|i: int| 0 <= i < self.entries@.len() implies self.entries@[i].id != id by {
                assert(self.entries@.to_set().contains(self.entries@[i]));
            }
        }
        let due = saturating_add(now, delay);
        self.insert(TimerEntry { id, due, interval: delay, remaining: count });
    }

    /// Fires every timer whose deadline is not after `now` and hands back their
    /// ids in firing order: by deadline, ties by id. A timer on its last firing
    /// goes; the others move one interval on.
    pub fn fire_due(&mut self, now: u64) -> (r: Vec<u32>)
        requires
            old(self).wf(),
        ensures
            final(self).wf(),
            r@.len() <= old(self).entries@.len(),
            forall|i: int| 0 <= i < r@.len() ==> old(self).entries@[i].due <= now,
            forall|i: int| 0 <= i < r@.len() ==> r@[i] == old(self).entries@[i].id,
            forall|i: int| r@.len() <= i < old(self).entries@.len() ==> old(self).entries@[i].due > now,
            final(self).entries@.to_set() == old(self).entries@.subrange(r@.len() as int, old(self).entries@.len() as int).to_set()
                + refired(old(self).entries@.subrange(0, r@.len() as int)),
    {
        let ghost o = self.entries@;
        let mut k: usize = 0;
        while k < self.entries.len() && self.entries[k].due <= now
            invariant
                k <= self.entries.len(),
                self.entries@ == o,
                forall|i: int| 0 <= i < k ==> o[i].due <= now,
            decreases self.entries.len() - k,
        {
            k += 1;
        }
        proof {
            assert forall|i: int| k <= i < o.len() implies o[i].due > now by {
                if i > k {
                    assert(fires_before(o[k as int], o[i]));
                }
            }
        }
        let mut head: Vec<TimerEntry> = Vec::new();
        core::mem::swap(&mut head, &mut self.entries);
        let tail = head.split_off(k);
        self.entries = tail;
        let ghost t = o.subrange(k as int, o.len() as int);
        proof {
            assert(self.entries@ =~= t);
            assert(head@ =~= o.subrange(0, k as int));
            assert(o.subrange(0, 0).len() == 0);
            assert(t.to_set() + refired(o.subrange(0, 0)) =~= t.to_set());
        }
        let mut ids: Vec<u32> = Vec::new();
        let mut i: usize = 0;
        while i < k
            invariant
                i <= k,
                k <= o.len(),
                head@ == o.subrange(0, k as int),
                t == o.subrange(k as int, o.len() as int),
                in_firing_order(o),
                ids_unique(o),
                self.wf(),
                ids@.len() == i,
                forall|j: int| 0 <= j < i ==> ids@[j] == o[j].id,
                self.entries@.to_set() == t.to_set() + refired(o.subrange(0, i as int)),
            decreases k - i,
        {
            let e = head[i];
            ids.push(e.id);
            proof {
                assert(e == o[i as int]);
                assert(o.subrange(0, i + 1).drop_last() =~= o.subrange(0, i as int));
                assert(o.subrange(0, i + 1).last() == e);
            }
            if e.remaining != 1 {
                let next = TimerEntry {
                    due: saturating_add(e.due, e.interval),
                    remaining: if e.remaining == 0 {
                        0
                    } else {
                        e.remaining - 1
                    },
                    ..e
                };
                proof {
                    assert forall|m: int| 0 <= m < self.entries@.len() implies self.entries@[m].id != next.id by {
                        let x = self.entries@[m];
                        assert(self.entries@.to_set().contains(x));
                        if t.to_set().contains(x) {
                            let q = choose|q: int| 0 <= q < t.len() && t[q] == x;
                            assert(o[k + q] == x);
                        } else {
                            lemma_refired_ids(o.subrange(0, i as int), x);
                            let q = choose|q: int| 0 <= q < i && o.subrange(0, i as int)[q].id == x.id;
                            assert(o[q].id == x.id);
                        }
                    }
                }
                self.insert(next);
                proof {
                    assert(after_firing(e) == Some(next));
                    assert(self.entries@.to_set() =~= t.to_set() + refired(o.subrange(0, i + 1)));
                }
            } else {
                proof {
                    assert(refired(o.subrange(0, i + 1)) == refired(o.subrange(0, i as int)));
                }
            }
            i += 1;
        }
        proof {
            assert(ids@.len() == k);
        }
        ids
    }
}

/// What firing leaves behind keeps the ids of what fired.
proof fn lemma_refired_ids(fired: Seq<TimerEntry>, x: TimerEntry)
    requires
        refired(fired).contains(x),
    ensures
        exists|q: int| 0 <= q < fired.len() && fired[q].id == x.id,
    decreases fired.len(),
{
    let rest = fired.drop_last();
    if refired(rest).contains(x) {
        lemma_refired_ids(rest, x);
        let q = choose|q: int| 0 <= q < rest.len() && rest[q].id == x.id;
        assert(fired[q].id == x.id);
    } else {
        assert(fired[fired.len() - 1].id == x.id);
    }
}

} // verus!
