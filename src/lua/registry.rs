use vstd::prelude::*;

verus! {

/// The event a listener waits for.
#[derive(Debug, PartialEq, Eq, Structural, Clone, Copy)]
pub enum ListenerKind {
    MudOutput,
    MudInput,
    Quit,
    DimensionsChange,
    Tick,
    Timed,
    ProtoEnabled,
    ProtoSubneg,
    Connect,
    Disconnect,
    Completion,
    FsEvent,
    ScriptReset,
    PromptInput,
}

/// An installed callback: its id, what it waits for, and whether a built-in
/// module (core) or a user script installed it.
#[derive(Debug, PartialEq, Eq, Structural, Clone, Copy)]
pub struct Listener {
    pub id: u32,
    pub kind: ListenerKind,
    pub core: bool,
}

/// Ids of the listeners of `entries` that wait for `kind` and belong to the
/// core table (`core`) or the user table, in insertion order.
pub open spec fn table(entries: Seq<Listener>, kind: ListenerKind, core: bool) -> Seq<u32>
    decreases entries.len(),
{
    if entries.len() == 0 {
        Seq::empty()
    } else {
        let l = entries.last();
        let rest = table(entries.drop_last(), kind, core);
        if l.kind == kind && l.core == core {
            rest.push(l.id)
        } else {
            rest
        }
    }
}

/// The order in which the listeners for `kind` are called: the core table,
/// then the user table.
pub open spec fn call_order(entries: Seq<Listener>, kind: ListenerKind) -> Seq<u32> {
    table(entries, kind, true) + table(entries, kind, false)
}

/// Ids of `entries` strictly ascending, all below `next`.
pub open spec fn ids_below(entries: Seq<Listener>, next: u32) -> bool {
    &&& forall|i: int, j: int| 0 <= i < j < entries.len() ==> entries[i].id < entries[j].id
    &&& forall|i: int| 0 <= i < entries.len() ==> entries[i].id < next
}

/// Listener tables keyed by id, with the counter that hands out ids.
#[derive(Debug)]
pub struct Registry {
    pub entries: Vec<Listener>,
    pub next_id: u32,
}

/// Every id in `table(entries, ..)` is the id of some entry.
pub proof fn lemma_table_ids(entries: Seq<Listener>, kind: ListenerKind, core: bool, k: int)
    requires
        0 <= k < table(entries, kind, core).len(),
    ensures
        exists|i: int| 0 <= i < entries.len() && entries[i].id == table(entries, kind, core)[k],
    decreases entries.len(),
{
    let rest = table(entries.drop_last(), kind, core);
    if k < rest.len() {
        lemma_table_ids(entries.drop_last(), kind, core, k);
        let i = choose|i: int| 0 <= i < entries.len() - 1 && entries.drop_last()[i].id == rest[k];
        assert(entries[i].id == table(entries, kind, core)[k]);
    } else {
        assert(entries[entries.len() - 1].id == table(entries, kind, core)[k]);
    }
}

/// Listeners with an id outside `entries` appear in no table.
pub proof fn lemma_table_absent(entries: Seq<Listener>, kind: ListenerKind, core: bool, id: u32)
    requires
        forall|i: int| 0 <= i < entries.len() ==> entries[i].id != id,
    ensures
        !table(entries, kind, core).contains(id),
{
    if table(entries, kind, core).contains(id) {
        let k = choose|k: int| 0 <= k < table(entries, kind, core).len() && table(entries, kind, core)[k] == id;
        lemma_table_ids(entries, kind, core, k);
    }
}

impl Registry {
    pub open spec fn wf(&self) -> bool {
        ids_below(self.entries@, self.next_id)
    }

    /// No listener, ids from 1.
    pub fn new() -> (r: Registry)
        ensures
            r.wf(),
            r.entries@ == Seq::<Listener>::empty(),
            r.next_id == 1,
    {
        Registry { entries: Vec::new(), next_id: 1 }
    }

    /// The ids of the listeners for `kind` in the order they are called: core
    /// before user, insertion order within each.
    pub fn listeners(&self, kind: ListenerKind) -> (r: Vec<u32>)
        ensures
            r@ == call_order(self.entries@, kind),
    {
        let mut core: Vec<u32> = Vec::new();
        let mut user: Vec<u32> = Vec::new();
        let mut i: usize = 0;
        while i < self.entries.len()
            invariant
                i <= self.entries.len(),
                core@ == table(self.entries@.subrange(0, i as int), kind, true),
                user@ == table(self.entries@.subrange(0, i as int), kind, false),
            decreases self.entries.len() - i,
        {
            let l = self.entries[i];
            assert(self.entries@.subrange(0, i + 1).drop_last() =~= self.entries@.subrange(0, i as int));
            if l.kind == kind {
                if l.core {
                    core.push(l.id);
                } else {
                    user.push(l.id);
                }
            }
            i += 1;
        }
        assert(self.entries@.subrange(0, i as int) =~= self.entries@);
        core.append(&mut user);
        core
    }

    /// Installs a listener for `kind` in the core or the user table and returns
    /// its id; `None` once the ids are used up.
    pub fn add(&mut self, kind: ListenerKind, core: bool) -> (r: Option<u32>)
        requires
            old(self).wf(),
        ensures
            final(self).wf(),
            old(self).next_id == u32::MAX ==> r is None && *final(self) == *old(self),
            old(self).next_id < u32::MAX ==> r == Some(old(self).next_id)
                && final(self).entries@ == old(self).entries@.push(Listener { id: old(self).next_id, kind, core })
                && final(self).next_id == old(self).next_id + 1,
    {
        if self.next_id == u32::MAX {
            return None;
        }
        let id = self.next_id;
        self.entries.push(Listener { id, kind, core });
        self.next_id = id + 1;
        Some(id)
    }

    /// Whether a listener with id `id` is installed.
    pub fn contains(&self, id: u32) -> (r: bool)
        ensures
            r == exists|i: int| 0 <= i < self.entries@.len() && self.entries@[i].id == id,
    {
        let mut i: usize = 0;
        while i < self.entries.len()
            invariant
                i <= self.entries.len(),
                forall|k: int| 0 <= k < i ==> self.entries@[k].id != id,
            decreases self.entries.len() - i,
        {
            if self.entries[i].id == id {
                return true;
            }
            i += 1;
        }
        false
    }

    /// Removes the listener with id `id`, from whichever table holds it; returns
    /// whether there was one.
    pub fn remove(&mut self, id: u32) -> (r: bool)
        requires
            old(self).wf(),
        ensures
            final(self).wf(),
            final(self).next_id == old(self).next_id,
            r == exists|i: int| 0 <= i < old(self).entries@.len() && old(self).entries@[i].id == id,
            r ==> exists|i: int|
                0 <= i < old(self).entries@.len() && old(self).entries@[i].id == id
                    && final(self).entries@ == old(self).entries@.remove(i),
            !r ==> final(self).entries@ == old(self).entries@,
            forall|i: int| 0 <= i < final(self).entries@.len() ==> final(self).entries@[i].id != id,
    {
        let ghost before = self.entries@;
        let mut i: usize = 0;
        while i < self.entries.len()
            invariant
                i <= self.entries.len(),
                self.entries@ == before,
                before == old(self).entries@,
                self.next_id == old(self).next_id,
                ids_below(before, self.next_id),
                forall|k: int| 0 <= k < i ==> before[k].id != id,
            decreases self.entries.len() - i,
        {
            if self.entries[i].id == id {
                self.entries.remove(i);
                proof {
                    let after = self.entries@;
                    assert(after =~= before.remove(i as int));
                    assert(before[i as int].id == id);
                    assert forall|k: int| 0 <= k < after.len() implies after[k].id != id by {
                        if k < i {
                        } else {
                            assert(after[k] == before[k + 1]);
                            assert(before[i as int].id < before[k + 1].id);
                        }
                    }
                    assert forall|a: int, b: int| 0 <= a < b < after.len() implies after[a].id < after[b].id by {
                        if a >= i {
                            assert(before[a + 1].id < before[b + 1].id);
                        } else if b >= i {
                            assert(before[a].id < before[b + 1].id);
                        } else {
                            assert(before[a].id < before[b].id);
                        }
                    }
                }
                return true;
            }
            i += 1;
        }
        false
    }
}

} // verus!
