use vstd::prelude::*;
use crate::text::{cmp_str, lemma_cmp_basics, lemma_cmp_trans, str_lt};

verus! {

/// Each entry orders strictly before the next: sorted, no duplicates.
pub open spec fn strictly_ascending(s: Seq<Seq<char>>) -> bool {
    forall|i: int, j: int| 0 <= i < j < s.len() ==> str_lt(s[i], s[j])
}

/// The views of a list of strings.
pub open spec fn string_views(v: Seq<String>) -> Seq<Seq<char>> {
    v.map_values(|s: String| s@)
}

/// Candidates for completing the input line, and whether they replace the
/// default completers.
#[derive(Debug, PartialEq, Eq, Clone)]
pub struct Completions {
    pub completions: Vec<String>,
    pub locked: bool,
}

/// What one completion callback handed back.
#[derive(Debug, PartialEq, Eq, Clone)]
pub enum CompletionReply {
    /// The callback returned: a list of strings when its first value was one, a
    /// flag when its second value was a boolean.
    Returned { entries: Option<Vec<String>>, lock: Option<bool> },
    /// The callback raised an error, with its stack trace.
    Failed { trace: String },
}

/// The strings that `replies` offer, in order.
pub open spec fn offered(replies: Seq<CompletionReply>) -> Set<Seq<char>>
    decreases replies.len(),
{
    if replies.len() == 0 {
        Set::empty()
    } else {
        let last = replies.last();
        let rest = offered(replies.drop_last());
        match last {
            CompletionReply::Returned { entries: Some(v), .. } => rest + string_views(v@).to_set(),
            _ => rest,
        }
    }
}

/// The flag of the last reply that gave one; `None` when none did.
pub open spec fn last_lock(replies: Seq<CompletionReply>) -> Option<bool>
    decreases replies.len(),
{
    if replies.len() == 0 {
        None
    } else {
        match replies.last() {
            CompletionReply::Returned { lock: Some(b), .. } => Some(b),
            _ => last_lock(replies.drop_last()),
        }
    }
}

/// The lock after `replies` when `carried` was in force before them.
pub open spec fn lock_after(replies: Seq<CompletionReply>, carried: bool) -> bool {
    match last_lock(replies) {
        Some(b) => b,
        None => carried,
    }
}

/// Some callback failed.
pub open spec fn any_failed(replies: Seq<CompletionReply>) -> bool {
    exists|i: int| 0 <= i < replies.len() && replies[i] is Failed
}

/// `trace` is the stack trace of the first failed reply.
pub open spec fn first_failure(replies: Seq<CompletionReply>, trace: Seq<char>) -> bool {
    exists|i: int|
        #![trigger replies[i]]
        0 <= i < replies.len() && (replies[i] matches CompletionReply::Failed { trace: t } && t@ == trace)
            && forall|j: int| 0 <= j < i ==> !(#[trigger] replies[j] is Failed)
}

impl Completions {
    pub open spec fn wf(&self) -> bool {
        strictly_ascending(string_views(self.completions@))
    }

    /// The candidates as a set.
    pub open spec fn entry_set(&self) -> Set<Seq<char>> {
        string_views(self.completions@).to_set()
    }

    /// Adds `entry` unless it is there already, keeping the order.
    pub fn add(&mut self, entry: String)
        requires
            old(self).wf(),
        ensures
            final(self).wf(),
            final(self).entry_set() == old(self).entry_set().insert(entry@),
            final(self).locked == old(self).locked,
    {
        let ghost o = string_views(self.completions@);
        let mut j: usize = 0;
        while j < self.completions.len()
            invariant
                j <= self.completions.len(),
                o == string_views(self.completions@),
                forall|k: int| 0 <= k < j ==> str_lt(#[trigger] o[k], entry@),
            ensures
                j <= self.completions.len(),
                forall|k: int| 0 <= k < j ==> str_lt(#[trigger] o[k], entry@),
                j < self.completions.len() ==> !str_lt(o[j as int], entry@),
            decreases self.completions.len() - j,
        {
            if !matches!(cmp_str(self.completions[j].as_str(), entry.as_str()), core::cmp::Ordering::Less) {
                break;
            }
            j += 1;
        }
        if j < self.completions.len() && matches!(
            cmp_str(self.completions[j].as_str(), entry.as_str()),
            core::cmp::Ordering::Equal
        ) {
            proof {
                lemma_cmp_basics(o[j as int], entry@);
                assert(o.to_set().contains(o[j as int]));
                assert(o.to_set().insert(entry@) =~= o.to_set());
            }
            return;
        }
        proof {
            if j < o.len() {
                lemma_cmp_basics(o[j as int], entry@);
                lemma_cmp_basics(entry@, o[j as int]);
                assert(str_lt(entry@, o[j as int]));
                assert forall|k: int| j < k < o.len() implies str_lt(entry@, #[trigger] o[k]) by {
                    assert(str_lt(o[j as int], o[k]));
                    lemma_cmp_trans(entry@, o[j as int], o[k]);
                }
            }
            let n = string_views(self.completions@.insert(j as int, entry));
            assert(n =~= o.insert(j as int, entry@));
            assert forall|a: int, b: int| 0 <= a < b < n.len() implies str_lt(n[a], n[b]) by {
                if b == j {
                } else if a == j {
                } else if a < j && b > j {
                    assert(str_lt(o[a], o[b - 1]));
                } else if b < j {
                    assert(str_lt(o[a], o[b]));
                } else {
                    assert(str_lt(o[a - 1], o[b - 1]));
                }
            }
            assert(n.to_set() =~= o.to_set().insert(entry@)) by {
                assert forall|x: Seq<char>| n.to_set().contains(x) implies o.to_set().insert(entry@).contains(x) by {
                    let i = choose|i: int| 0 <= i < n.len() && n[i] == x;
                    if i < j {
                        assert(o[i] == x);
                    } else if i > j {
                        assert(o[i - 1] == x);
                    }
                }
                assert forall|x: Seq<char>| o.to_set().insert(entry@).contains(x) implies n.to_set().contains(x) by {
                    if x == entry@ {
                        assert(n[j as int] == x);
                    } else {
                        let i = choose|i: int| 0 <= i < o.len() && o[i] == x;
                        if i < j {
                            assert(n[i] == x);
                        } else {
                            assert(n[i + 1] == x);
                        }
                    }
                }
            }
        }
        self.completions.insert(j, entry);
    }

    /// Adds every string of `entries`.
    pub fn add_all(&mut self, entries: &Vec<String>)
        requires
            old(self).wf(),
        ensures
            final(self).wf(),
            final(self).entry_set() == old(self).entry_set() + string_views(entries@).to_set(),
            final(self).locked == old(self).locked,
    {
        let mut i: usize = 0;
        while i < entries.len()
            invariant
                i <= entries.len(),
                self.wf(),
                self.entry_set() == old(self).entry_set() + string_views(entries@.subrange(0, i as int)).to_set(),
                self.locked == old(self).locked,
            decreases entries.len() - i,
        {
            self.add(entries[i].clone());
            proof {
                let pre = string_views(entries@.subrange(0, i as int));
                assert(string_views(entries@.subrange(0, i + 1)) =~= pre.push(entries@[i as int]@));
                pre.lemma_push_to_set_commute(entries@[i as int]@);
                assert(self.entry_set() =~= old(self).entry_set() + string_views(entries@.subrange(0, i + 1)).to_set());
            }
            i += 1;
        }
        assert(entries@.subrange(0, i as int) =~= entries@);
    }

    /// Sets whether the candidates replace the default completers.
    pub fn lock(&mut self, lock: bool)
        ensures
            final(self).completions == old(self).completions,
            final(self).locked == lock,
    {
        self.locked = lock;
    }

    /// Candidates made of `entries`, sorted, without duplicates, unlocked.
    pub fn from_vec(entries: Vec<String>) -> (r: Completions)
        ensures
            r.wf(),
            r.entry_set() == string_views(entries@).to_set(),
            !r.locked,
    {
        let mut r = Completions::default();
        proof {
            assert(r.entry_set() =~= Set::empty());
        }
        r.add_all(&entries);
        proof {
            assert(r.entry_set() =~= string_views(entries@).to_set());
        }
        r
    }

    pub fn is_empty(&self) -> (r: bool)
        ensures
            r == (self.completions@.len() == 0),
    {
        self.completions.len() == 0
    }

    /// Folds the replies of the completion callbacks, in the order they were
    /// called: the offered strings, sorted and without duplicates, locked as the
    /// last reply that gave a flag says, or as `carried` when none gave one. A
    /// failed callback ends the walk with no candidates, unlocked.
    pub fn from_replies(replies: &Vec<CompletionReply>, carried: bool) -> (r: Completions)
        ensures
            r.wf(),
            any_failed(replies@) ==> r.completions@.len() == 0 && !r.locked,
            !any_failed(replies@) ==> r.entry_set() == offered(replies@) && r.locked == lock_after(
                replies@,
                carried,
            ),
    {
        let mut r = Completions { completions: Vec::new(), locked: carried };
        let mut i: usize = 0;
        while i < replies.len()
            invariant
                i <= replies.len(),
                r.wf(),
                r.entry_set() == offered(replies@.subrange(0, i as int)),
                r.locked == lock_after(replies@.subrange(0, i as int), carried),
                !any_failed(replies@.subrange(0, i as int)),
            decreases replies.len() - i,
        {
            let ghost pre = replies@.subrange(0, i as int);
            let ghost next = replies@.subrange(0, i + 1);
            assert(next.drop_last() =~= pre);
            assert(next.last() == replies@[i as int]);
            match &replies[i] {
                CompletionReply::Failed { .. } => {
                    assert(any_failed(replies@)) by {
                        assert(replies@[i as int] is Failed);
                    }
                    return Completions::default();
                },
                CompletionReply::Returned { entries, lock } => {
                    if let Some(v) = entries {
                        r.add_all(v);
                    }
                    if let Some(b) = lock {
                        r.lock(*b);
                    }
                },
            }
            proof {
                assert(r.entry_set() =~= offered(next));
                assert(!any_failed(next)) by {
                    if any_failed(next) {
                        let k = choose|k: int| 0 <= k < next.len() && next[k] is Failed;
                        if k < i {
                            assert(pre[k] is Failed);
                        }
                    }
                }
            }
            i += 1;
        }
        assert(replies@.subrange(0, i as int) =~= replies@);
        r
    }
}

/// The stack trace of the first failed reply, if one failed.
pub fn failure_trace(replies: &Vec<CompletionReply>) -> (r: Option<String>)
    ensures
        r is Some == any_failed(replies@),
        r matches Some(t) ==> first_failure(replies@, t@),
{
    let mut i: usize = 0;
    while i < replies.len()
        invariant
            i <= replies.len(),
            forall|j: int| 0 <= j < i ==> !(replies@[j] is Failed),
        decreases replies.len() - i,
    {
        if let CompletionReply::Failed { trace } = &replies[i] {
            let t = trace.clone();
            assert(first_failure(replies@, t@));
            return Some(t);
        }
        i += 1;
    }
    None
}

impl Default for Completions {
    fn default() -> (r: Completions)
        ensures
            r.completions@.len() == 0,
            !r.locked,
    {
        Completions { completions: Vec::new(), locked: false }
    }
}

} // verus!
