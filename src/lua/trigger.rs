use vstd::prelude::*;
use crate::model::line::{Line, LineFlags};
use crate::model::regex::{group_views, regex_compiles, regex_finds, regex_groups, Pattern};
use crate::text::string_from_chars;
use crate::ui::printable_chars::{printable_chars, printable_of};

verus! {

/// How a trigger is set up when it is added.
#[derive(Debug, PartialEq, Eq, Structural, Clone, Copy)]
pub struct TriggerOptions {
    /// Gag the lines it matches.
    pub gag: bool,
    /// Match against the text with its escape sequences.
    pub raw: bool,
    /// Match prompt lines only (and no other line).
    pub prompt: bool,
    pub enabled: bool,
    /// Remove the trigger after this many matches.
    pub count: Option<u32>,
}

impl TriggerOptions {
    /// Enabled, no other option.
    pub fn new() -> (r: TriggerOptions)
        ensures
            r == (TriggerOptions { gag: false, raw: false, prompt: false, enabled: true, count: None }),
    {
        TriggerOptions { gag: false, raw: false, prompt: false, enabled: true, count: None }
    }
}

/// A regex on server output, with its flags.
#[derive(Debug)]
pub struct Trigger {
    pub id: u32,
    pub regex: Pattern,
    pub gag: bool,
    pub raw: bool,
    pub prompt: bool,
    pub enabled: bool,
    /// Matches left before the trigger is removed.
    pub count: Option<u32>,
}

/// Why a trigger or alias could not be added.
#[derive(Debug, PartialEq, Eq, Structural, Clone, Copy)]
pub enum TriggerError {
    /// The regex crate refused the pattern.
    InvalidPattern,
    /// A count of zero.
    InvalidCount,
    /// Every id has been handed out.
    IdsExhausted,
}

/// A trigger or alias that matched, with the groups of its match (the whole
/// match first), for its callback.
#[derive(Debug, PartialEq, Eq, Clone)]
pub struct Fired {
    pub id: u32,
    pub captures: Vec<Option<String>>,
}

/// What a fired entry says: its id and its groups.
pub open spec fn fired_view(f: Fired) -> (u32, Seq<Option<Seq<char>>>) {
    (f.id, group_views(f.captures@))
}

/// The text that `t` is matched against: the line as received when `raw`, else
/// only its printable chars.
pub open spec fn match_text(t: Trigger, line: Line) -> Seq<char> {
    if t.raw {
        line.content@
    } else {
        printable_of(line.content@)
    }
}

/// Whether `t` fires on `line`: it is enabled, agrees with the line on being a
/// prompt, and its regex matches.
pub open spec fn fires(t: Trigger, line: Line) -> bool {
    &&& t.enabled
    &&& t.prompt == line.flags.prompt
    &&& regex_finds(t.regex@, match_text(t, line))
}

/// The triggers of `ts` that fire on `line`, in order, with their groups.
pub open spec fn fired_on(ts: Seq<Trigger>, line: Line) -> Seq<(u32, Seq<Option<Seq<char>>>)>
    decreases ts.len(),
{
    if ts.len() == 0 {
        Seq::empty()
    } else {
        let t = ts.last();
        let rest = fired_on(ts.drop_last(), line);
        if fires(t, line) {
            rest.push((t.id, regex_groups(t.regex@, match_text(t, line))))
        } else {
            rest
        }
    }
}

/// Some trigger of `ts` with `gag` set fires on `line`.
pub open spec fn gags(ts: Seq<Trigger>, line: Line) -> bool {
    exists|i: int| 0 <= i < ts.len() && fires(ts[i], line) && ts[i].gag
}

/// `t` after one more match: one count less.
pub open spec fn counted(t: Trigger) -> Trigger {
    match t.count {
        Some(n) => Trigger { count: Some((n - 1) as u32), ..t },
        None => t,
    }
}

/// The triggers of `ts` that remain after `line`: those that fired use up a
/// count, and go once their count is spent.
pub open spec fn kept(ts: Seq<Trigger>, line: Line) -> Seq<Trigger>
    decreases ts.len(),
{
    if ts.len() == 0 {
        Seq::empty()
    } else {
        let t = ts.last();
        let rest = kept(ts.drop_last(), line);
        if fires(t, line) && t.count == Some(1u32) {
            rest
        } else if fires(t, line) {
            rest.push(counted(t))
        } else {
            rest.push(t)
        }
    }
}

/// `flags` after a line on which `fired` triggers fired, `gag` of them gagging.
pub open spec fn flags_after(flags: LineFlags, fired: bool, gag: bool) -> LineFlags {
    LineFlags { matched: flags.matched || fired, gag: flags.gag || gag, ..flags }
}

/// Ids ascending and below `next`; no count is zero.
pub open spec fn triggers_wf(ts: Seq<Trigger>, next: u32) -> bool {
    &&& forall|i: int, j: int| 0 <= i < j < ts.len() ==> ts[i].id < ts[j].id
    &&& forall|i: int| 0 <= i < ts.len() ==> ts[i].id < next
    &&& forall|i: int| 0 <= i < ts.len() ==> ts[i].count != Some(0u32)
}

/// The ids of `ts`.
pub open spec fn trigger_ids(ts: Seq<Trigger>) -> Seq<u32> {
    ts.map_values(|t: Trigger| t.id)
}

/// The triggers of a session.
#[derive(Debug)]
pub struct TriggerGroup {
    pub triggers: Vec<Trigger>,
    pub next_id: u32,
}

impl TriggerGroup {
    pub open spec fn wf(&self) -> bool {
        triggers_wf(self.triggers@, self.next_id)
    }

    /// No trigger, ids from 1.
    pub fn new() -> (r: TriggerGroup)
        ensures
            r.wf(),
            r.triggers@.len() == 0,
            r.next_id == 1,
    {
        TriggerGroup { triggers: Vec::new(), next_id: 1 }
    }

    /// Adds a trigger on `pattern` and returns its id. Fails when the pattern
    /// does not compile, when the count is zero, or when the ids are used up.
    pub fn add(&mut self, pattern: &str, opts: TriggerOptions) -> (r: Result<u32, TriggerError>)
        requires
            old(self).wf(),
        ensures
            final(self).wf(),
            !regex_compiles(pattern@) ==> r == Err::<u32, TriggerError>(TriggerError::InvalidPattern),
            regex_compiles(pattern@) && opts.count == Some(0u32) ==> r == Err::<u32, TriggerError>(
                TriggerError::InvalidCount,
            ),
            regex_compiles(pattern@) && opts.count != Some(0u32) && old(self).next_id == u32::MAX ==> r
                == Err::<u32, TriggerError>(TriggerError::IdsExhausted),
            regex_compiles(pattern@) && opts.count != Some(0u32) && old(self).next_id < u32::MAX ==> r
                == Ok::<u32, TriggerError>(old(self).next_id),
            r is Err ==> final(self).triggers@ == old(self).triggers@ && final(self).next_id == old(self).next_id,
            r is Ok ==> {
                &&& regex_compiles(pattern@) && opts.count != Some(0u32) && old(self).next_id < u32::MAX
                &&& r == Ok::<u32, TriggerError>(old(self).next_id)
                &&& final(self).next_id == old(self).next_id + 1
                &&& final(self).triggers@.len() == old(self).triggers@.len() + 1
                &&& final(self).triggers@.drop_last() == old(self).triggers@
                &&& final(self).triggers@.last().id == old(self).next_id
                &&& final(self).triggers@.last().regex@ == pattern@
                &&& final(self).triggers@.last().gag == opts.gag
                &&& final(self).triggers@.last().raw == opts.raw
                &&& final(self).triggers@.last().prompt == opts.prompt
                &&& final(self).triggers@.last().enabled == opts.enabled
                &&& final(self).triggers@.last().count == opts.count
            },
    {
        let regex = match Pattern::new(pattern) {
            Ok(re) => re,
            Err(_) => return Err(TriggerError::InvalidPattern),
        };
        if opts.count == Some(0u32) {
            return Err(TriggerError::InvalidCount);
        }
        if self.next_id == u32::MAX {
            return Err(TriggerError::IdsExhausted);
        }
        let id = self.next_id;
        self.triggers.push(
            Trigger {
                id,
                regex,
                gag: opts.gag,
                raw: opts.raw,
                prompt: opts.prompt,
                enabled: opts.enabled,
                count: opts.count,
            },
        );
        self.next_id = id + 1;
        assert(self.triggers@.drop_last() =~= old(self).triggers@);
        Ok(id)
    }

    /// Removes the trigger with id `id`; returns whether there was one.
    pub fn remove(&mut self, id: u32) -> (r: bool)
        requires
            old(self).wf(),
        ensures
            final(self).wf(),
            final(self).next_id == old(self).next_id,
            r == trigger_ids(old(self).triggers@).contains(id),
            r ==> exists|i: int|
                0 <= i < old(self).triggers@.len() && old(self).triggers@[i].id == id
                    && final(self).triggers@ == old(self).triggers@.remove(i),
            !r ==> final(self).triggers@ == old(self).triggers@,
            !trigger_ids(final(self).triggers@).contains(id),
    {
        let ghost before = self.triggers@;
        let mut i: usize = 0;
        while i < self.triggers.len()
            invariant
                i <= self.triggers.len(),
                self.triggers@ == before,
                before == old(self).triggers@,
                self.next_id == old(self).next_id,
                triggers_wf(before, self.next_id),
                forall|k: int| 0 <= k < i ==> before[k].id != id,
            decreases self.triggers.len() - i,
        {
            if self.triggers[i].id == id {
                self.triggers.remove(i);
                proof {
                    let after = self.triggers@;
                    assert(after =~= before.remove(i as int));
                    assert(before[i as int].id == id);
                    assert(trigger_ids(before)[i as int] == id);
                    assert forall|k: int| 0 <= k < after.len() implies after[k].id != id by {
                        if k >= i {
                            assert(after[k] == before[k + 1]);
                            assert(before[i as int].id < before[k + 1].id);
                        }
                    }
                    assert forall|a: int, b: int| 0 <= a < b < after.len() implies after[a].id < after[b].id by {
                        if a >= i {
                            assert(before[a + 1].id < before[b + 1].id);
                        } else if b >= i {
                            assert(before[a].id < before[b + 1].id);
                        } else {
                            assert(before[a].id < before[b].id);
                        }
                    }
                    assert forall|k: int| 0 <= k < after.len() implies after[k].id < self.next_id && after[k].count != Some(0u32) by {
                        if k >= i {
                            assert(after[k] == before[k + 1]);
                        }
                    }
                    assert(!trigger_ids(after).contains(id));
                }
                return true;
            }
            i += 1;
        }
        proof {
            assert(!trigger_ids(before).contains(id)) by {
                if trigger_ids(before).contains(id) {
                    let k = choose|k: int| 0 <= k < before.len() && trigger_ids(before)[k] == id;
                    assert(before[k].id == id);
                }
            }
        }
        false
    }

    /// Removes every trigger.
    pub fn clear(&mut self)
        requires
            old(self).wf(),
        ensures
            final(self).wf(),
            final(self).triggers@.len() == 0,
            final(self).next_id == old(self).next_id,
    {
        self.triggers.clear();
    }

    /// Runs the triggers over a line of output: every trigger that fires marks
    /// the line matched (and gagged, if it gags), uses up a count, and is
    /// reported with its groups, in order.
    pub fn on_output(&mut self, line: &mut Line) -> (r: Vec<Fired>)
        requires
            old(self).wf(),
        ensures
            final(self).wf(),
            final(self).next_id == old(self).next_id,
            r@.map_values(|f: Fired| fired_view(f)) == fired_on(old(self).triggers@, *old(line)),
            final(self).triggers@ == kept(old(self).triggers@, *old(line)),
            final(line).content == old(line).content,
            final(line).replacement == old(line).replacement,
            final(line).flags == flags_after(
                old(line).flags,
                fired_on(old(self).triggers@, *old(line)).len() > 0,
                gags(old(self).triggers@, *old(line)),
            ),
    {
        let ghost line0 = *line;
        let ghost orig = self.triggers@;
        let mut rest: Vec<Trigger> = Vec::new();
        core::mem::swap(&mut rest, &mut self.triggers);
        let printable = printable_chars(line.content.as_str());
        let stripped = string_from_chars(&printable);
        let mut fired: Vec<Fired> = Vec::new();
        let mut i: usize = 0;
        let n = rest.len();
        assert(orig.skip(0) =~= orig);
        while i < n
            invariant
                n == orig.len(),
                i <= n,
                rest@ == orig.skip(i as int),
                triggers_wf(orig, old(self).next_id),
                self.next_id == old(self).next_id,
                stripped@ == printable_of(line0.content@),
                line.content == line0.content,
                line.replacement == line0.replacement,
                line.flags == flags_after(
                    line0.flags,
                    fired_on(orig.subrange(0, i as int), line0).len() > 0,
                    gags(orig.subrange(0, i as int), line0),
                ),
                fired@.map_values(|f: Fired| fired_view(f)) == fired_on(orig.subrange(0, i as int), line0),
                self.triggers@ == kept(orig.subrange(0, i as int), line0),
                triggers_wf(self.triggers@, self.next_id),
                forall|k: int| 0 <= k < self.triggers@.len() ==> #[trigger] self.triggers@[k].id < orig[i as int].id || i == n,
            decreases n - i,
        {
            let t = rest.remove(0);
            let ghost pre = orig.subrange(0, i as int);
            let ghost next = orig.subrange(0, i + 1);
            proof {
                assert(t == orig[i as int]);
                assert(next.drop_last() =~= pre);
                assert(next.last() == t);
                assert(orig.skip(i as int).drop_first() =~= orig.skip(i + 1));
            }
            let groups = if !t.enabled || t.prompt != line.flags.prompt {
                None
            } else if t.raw {
                t.regex.captures(line.content.as_str())
            } else {
                t.regex.captures(stripped.as_str())
            };
            let ghost old_fired = fired@;
            let ghost old_kept = self.triggers@;
            match groups {
                Some(captures) => {
                    line.flags.matched = true;
                    if t.gag {
                        line.flags.gag = true;
                    }
                    fired.push(Fired { id: t.id, captures });
                    match t.count {
                        Some(c) => {
                            if c != 1 {
                                self.triggers.push(Trigger { count: Some(c - 1), ..t });
                            }
                        },
                        None => {
                            self.triggers.push(t);
                        },
                    }
                },
                None => {
                    self.triggers.push(t);
                },
            }
            proof {
                assert(fired@.map_values(|f: Fired| fired_view(f)) =~= fired_on(next, line0));
                assert(gags(next, line0) == (gags(pre, line0) || (fires(t, line0) && t.gag))) by {
                    if gags(next, line0) {
                        let k = choose|k: int| 0 <= k < next.len() && fires(next[k], line0) && next[k].gag;
                        if k < i {
                            assert(pre[k] == next[k]);
                        }
                    }
                    if gags(pre, line0) {
                        let k = choose|k: int| 0 <= k < pre.len() && fires(pre[k], line0) && pre[k].gag;
                        assert(next[k] == pre[k]);
                    }
                    if fires(t, line0) && t.gag {
                        assert(next[i as int] == t);
                    }
                }
                assert((fired_on(next, line0).len() > 0) == (fired_on(pre, line0).len() > 0 || fires(t, line0)));
                if i + 1 < n {
                    assert(orig[i as int].id < orig[i + 1].id);
                }
            }
            i += 1;
        }
        assert(orig.subrange(0, n as int) =~= orig);
        fired
    }

    /// The ids of the triggers, ascending.
    pub fn ids(&self) -> (r: Vec<u32>)
        ensures
            r@ == trigger_ids(self.triggers@),
    {
        let mut r: Vec<u32> = Vec::new();
        let mut i: usize = 0;
        while i < self.triggers.len()
            invariant
                i <= self.triggers.len(),
                r@ == trigger_ids(self.triggers@.subrange(0, i as int)),
            decreases self.triggers.len() - i,
        {
            r.push(self.triggers[i].id);
            assert(trigger_ids(self.triggers@.subrange(0, i + 1)) =~= trigger_ids(self.triggers@.subrange(0, i as int)).push(self.triggers@[i as int].id));
            i += 1;
        }
        assert(self.triggers@.subrange(0, i as int) =~= self.triggers@);
        r
    }
}

} // verus!

verus! {

/// A regex on user input.
#[derive(Debug)]
pub struct Alias {
    pub id: u32,
    pub regex: Pattern,
    pub enabled: bool,
}

/// Whether `a` fires on `line`: it is enabled and its regex matches the line as typed.
pub open spec fn alias_fires(a: Alias, line: Line) -> bool {
    a.enabled && regex_finds(a.regex@, line.content@)
}

/// The aliases of `aliases` that fire on `line`, in order, with their groups.
pub open spec fn aliases_fired_on(aliases: Seq<Alias>, line: Line) -> Seq<(u32, Seq<Option<Seq<char>>>)>
    decreases aliases.len(),
{
    if aliases.len() == 0 {
        Seq::empty()
    } else {
        let a = aliases.last();
        let rest = aliases_fired_on(aliases.drop_last(), line);
        if alias_fires(a, line) {
            rest.push((a.id, regex_groups(a.regex@, line.content@)))
        } else {
            rest
        }
    }
}

/// The ids of `aliases`.
pub open spec fn alias_ids(aliases: Seq<Alias>) -> Seq<u32> {
    aliases.map_values(|a: Alias| a.id)
}

/// Ids ascending and below `next`.
pub open spec fn aliases_wf(aliases: Seq<Alias>, next: u32) -> bool {
    &&& forall|i: int, j: int| 0 <= i < j < aliases.len() ==> aliases[i].id < aliases[j].id
    &&& forall|i: int| 0 <= i < aliases.len() ==> aliases[i].id < next
}

/// The aliases of a session.
#[derive(Debug)]
pub struct AliasGroup {
    pub aliases: Vec<Alias>,
    pub next_id: u32,
}

impl AliasGroup {
    pub open spec fn wf(&self) -> bool {
        aliases_wf(self.aliases@, self.next_id)
    }

    /// No alias, ids from 1.
    pub fn new() -> (r: AliasGroup)
        ensures
            r.wf(),
            r.aliases@.len() == 0,
            r.next_id == 1,
    {
        AliasGroup { aliases: Vec::new(), next_id: 1 }
    }

    /// Adds an enabled alias on `pattern` and returns its id. Fails when the
    /// pattern does not compile or the ids are used up.
    pub fn add(&mut self, pattern: &str) -> (r: Result<u32, TriggerError>)
        requires
            old(self).wf(),
        ensures
            final(self).wf(),
            !regex_compiles(pattern@) ==> r == Err::<u32, TriggerError>(TriggerError::InvalidPattern),
            regex_compiles(pattern@) && old(self).next_id == u32::MAX ==> r == Err::<u32, TriggerError>(
                TriggerError::IdsExhausted,
            ),
            regex_compiles(pattern@) && old(self).next_id < u32::MAX ==> r == Ok::<u32, TriggerError>(
                old(self).next_id,
            ),
            r is Err ==> final(self).aliases@ == old(self).aliases@ && final(self).next_id == old(self).next_id,
            r is Ok ==> {
                &&& regex_compiles(pattern@) && old(self).next_id < u32::MAX
                &&& r == Ok::<u32, TriggerError>(old(self).next_id)
                &&& final(self).next_id == old(self).next_id + 1
                &&& final(self).aliases@.len() == old(self).aliases@.len() + 1
                &&& final(self).aliases@.drop_last() == old(self).aliases@
                &&& final(self).aliases@.last().id == old(self).next_id
                &&& final(self).aliases@.last().regex@ == pattern@
                &&& final(self).aliases@.last().enabled
            },
    {
        let regex = match Pattern::new(pattern) {
            Ok(re) => re,
            Err(_) => return Err(TriggerError::InvalidPattern),
        };
        if self.next_id == u32::MAX {
            return Err(TriggerError::IdsExhausted);
        }
        let id = self.next_id;
        self.aliases.push(Alias { id, regex, enabled: true });
        self.next_id = id + 1;
        assert(self.aliases@.drop_last() =~= old(self).aliases@);
        Ok(id)
    }

    /// Removes the alias with id `id`; returns whether there was one.
    pub fn remove(&mut self, id: u32) -> (r: bool)
        requires
            old(self).wf(),
        ensures
            final(self).wf(),
            final(self).next_id == old(self).next_id,
            r == alias_ids(old(self).aliases@).contains(id),
            r ==> exists|i: int|
                0 <= i < old(self).aliases@.len() && old(self).aliases@[i].id == id
                    && final(self).aliases@ == old(self).aliases@.remove(i),
            !r ==> final(self).aliases@ == old(self).aliases@,
            !alias_ids(final(self).aliases@).contains(id),
    {
        let ghost before = self.aliases@;
        let mut i: usize = 0;
        while i < self.aliases.len()
            invariant
                i <= self.aliases.len(),
                self.aliases@ == before,
                before == old(self).aliases@,
                self.next_id == old(self).next_id,
                aliases_wf(before, self.next_id),
                forall|k: int| 0 <= k < i ==> before[k].id != id,
            decreases self.aliases.len() - i,
        {
            if self.aliases[i].id == id {
                self.aliases.remove(i);
                proof {
                    let after = self.aliases@;
                    assert(after =~= before.remove(i as int));
                    assert(before[i as int].id == id);
                    assert(alias_ids(before)[i as int] == id);
                    assert forall|k: int| 0 <= k < after.len() implies after[k].id != id && after[k].id < self.next_id by {
                        if k >= i {
                            assert(after[k] == before[k + 1]);
                            assert(before[i as int].id < before[k + 1].id);
                        }
                    }
                    assert forall|a: int, b: int| 0 <= a < b < after.len() implies after[a].id < after[b].id by {
                        if a >= i {
                            assert(before[a + 1].id < before[b + 1].id);
                        } else if b >= i {
                            assert(before[a].id < before[b + 1].id);
                        } else {
                            assert(before[a].id < before[b].id);
                        }
                    }
                    assert(!alias_ids(after).contains(id));
                }
                return true;
            }
            i += 1;
        }
        proof {
            assert(!alias_ids(before).contains(id)) by {
                if alias_ids(before).contains(id) {
                    let k = choose|k: int| 0 <= k < before.len() && alias_ids(before)[k] == id;
                    assert(before[k].id == id);
                }
            }
        }
        false
    }

    /// Removes every alias.
    pub fn clear(&mut self)
        requires
            old(self).wf(),
        ensures
            final(self).wf(),
            final(self).aliases@.len() == 0,
            final(self).next_id == old(self).next_id,
    {
        self.aliases.clear();
    }

    /// The ids of the aliases, ascending.
    pub fn ids(&self) -> (r: Vec<u32>)
        ensures
            r@ == alias_ids(self.aliases@),
    {
        let mut r: Vec<u32> = Vec::new();
        let mut i: usize = 0;
        while i < self.aliases.len()
            invariant
                i <= self.aliases.len(),
                r@ == alias_ids(self.aliases@.subrange(0, i as int)),
            decreases self.aliases.len() - i,
        {
            r.push(self.aliases[i].id);
            assert(alias_ids(self.aliases@.subrange(0, i + 1)) =~= alias_ids(self.aliases@.subrange(0, i as int)).push(self.aliases@[i as int].id));
            i += 1;
        }
        assert(self.aliases@.subrange(0, i as int) =~= self.aliases@);
        r
    }

    /// Runs the aliases over a line of input: the line is marked matched when
    /// one fires, and those that fire are reported with their groups, in order.
    pub fn on_input(&self, line: &mut Line) -> (r: Vec<Fired>)
        ensures
            r@.map_values(|f: Fired| fired_view(f)) == aliases_fired_on(self.aliases@, *old(line)),
            final(line).content == old(line).content,
            final(line).replacement == old(line).replacement,
            final(line).flags == flags_after(
                old(line).flags,
                aliases_fired_on(self.aliases@, *old(line)).len() > 0,
                false,
            ),
    {
        let ghost line0 = *line;
        let mut fired: Vec<Fired> = Vec::new();
        let mut i: usize = 0;
        while i < self.aliases.len()
            invariant
                i <= self.aliases.len(),
                line.content == line0.content,
                line.replacement == line0.replacement,
                line.flags == flags_after(
                    line0.flags,
                    aliases_fired_on(self.aliases@.subrange(0, i as int), line0).len() > 0,
                    false,
                ),
                fired@.map_values(|f: Fired| fired_view(f)) == aliases_fired_on(self.aliases@.subrange(0, i as int), line0),
            decreases self.aliases.len() - i,
        {
            let a = &self.aliases[i];
            let ghost pre = self.aliases@.subrange(0, i as int);
            let ghost next = self.aliases@.subrange(0, i + 1);
            assert(next.drop_last() =~= pre);
            let groups = if a.enabled {
                a.regex.captures(line.content.as_str())
            } else {
                None
            };
            if let Some(captures) = groups {
                line.flags.matched = true;
                fired.push(Fired { id: a.id, captures });
            }
            assert(fired@.map_values(|f: Fired| fired_view(f)) =~= aliases_fired_on(next, line0));
            i += 1;
        }
        assert(self.aliases@.subrange(0, i as int) =~= self.aliases@);
        fired
    }
}

} // verus!

verus! {

/// When no trigger of `ts` fires on `line`, none is reported and none gags.
pub proof fn lemma_none_fire(ts: Seq<Trigger>, line: Line)
    requires
        forall|j: int| 0 <= j < ts.len() ==> !fires(#[trigger] ts[j], line),
    ensures
        fired_on(ts, line).len() == 0,
        !gags(ts, line),
    decreases ts.len(),
{
    if ts.len() > 0 {
        assert forall|j: int| 0 <= j < ts.drop_last().len() implies !fires(#[trigger] ts.drop_last()[j], line) by {
            assert(ts.drop_last()[j] == ts[j]);
        }
        lemma_none_fire(ts.drop_last(), line);
    }
}

/// A removed trigger marks no more lines: when no other trigger fires on
/// `line`, the triggers left after removing the one at `i` report nothing and
/// leave the line's flags as they were.
pub proof fn law_removed_trigger_stays_silent(ts: Seq<Trigger>, i: int, line: Line)
    requires
        0 <= i < ts.len(),
        forall|j: int| 0 <= j < ts.len() && j != i ==> !fires(#[trigger] ts[j], line),
    ensures
        fired_on(ts.remove(i), line).len() == 0,
        flags_after(line.flags, fired_on(ts.remove(i), line).len() > 0, gags(ts.remove(i), line)) == line.flags,
{
    let rest = ts.remove(i);
    assert forall|j: int| 0 <= j < rest.len() implies !fires(#[trigger] rest[j], line) by {
        if j < i {
            assert(rest[j] == ts[j]);
        } else {
            assert(rest[j] == ts[j + 1]);
        }
    }
    lemma_none_fire(rest, line);
}

/// Adding a trigger and then removing it by its id gives back the triggers
/// that were there before, so lines fire exactly as they did before the add.
pub proof fn law_add_then_remove_restores(ts: Seq<Trigger>, next: u32, t: Trigger, i: int, line: Line)
    requires
        triggers_wf(ts, next),
        t.id == next,
        0 <= i < ts.len() + 1,
        ts.push(t)[i].id == next,
    ensures
        ts.push(t).remove(i) == ts,
        fired_on(ts.push(t).remove(i), line) == fired_on(ts, line),
{
    if i < ts.len() {
        assert(ts[i].id < next);
    }
    assert(ts.push(t).remove(i) =~= ts);
}

/// The triggers left after each of `lines` in turn.
pub open spec fn after_lines(ts: Seq<Trigger>, lines: Seq<Line>) -> Seq<Trigger>
    decreases lines.len(),
{
    if lines.len() == 0 {
        ts
    } else {
        kept(after_lines(ts, lines.drop_last()), lines.last())
    }
}

/// `t` with `left` matches to go.
pub open spec fn with_count(t: Trigger, left: u32) -> Trigger {
    Trigger { count: Some(left), ..t }
}

proof fn lemma_counted_state(t: Trigger, n: u32, lines: Seq<Line>, k: int)
    requires
        t.count == Some(n),
        n >= 1,
        0 <= k <= lines.len(),
        forall|j: int| 0 <= j < lines.len() ==> fires(t, #[trigger] lines[j]),
    ensures
        k < n ==> after_lines(seq![t], lines.subrange(0, k)) == seq![with_count(t, (n - k) as u32)],
        k >= n ==> after_lines(seq![t], lines.subrange(0, k)) == Seq::<Trigger>::empty(),
    decreases k,
{
    if k == 0 {
        assert(lines.subrange(0, 0).len() == 0);
        assert(with_count(t, n) == t);
    } else {
        lemma_counted_state(t, n, lines, k - 1);
        let pre = lines.subrange(0, k - 1);
        assert(lines.subrange(0, k).drop_last() =~= pre);
        assert(lines.subrange(0, k).last() == lines[k - 1]);
        let st = after_lines(seq![t], pre);
        if k - 1 < n {
            let tc = with_count(t, (n - (k - 1)) as u32);
            assert(fires(tc, lines[k - 1]) == fires(t, lines[k - 1]));
            assert(st.drop_last() =~= Seq::<Trigger>::empty());
            assert(st.last() == tc);
            assert(kept(Seq::<Trigger>::empty(), lines[k - 1]) == Seq::<Trigger>::empty());
            if n - (k - 1) == 1 {
                assert(kept(st, lines[k - 1]) =~= Seq::<Trigger>::empty());
            } else {
                assert(counted(tc) == with_count(t, (n - k) as u32));
                assert(kept(st, lines[k - 1]) =~= seq![with_count(t, (n - k) as u32)]);
            }
        } else {
            assert(kept(Seq::<Trigger>::empty(), lines[k - 1]) == Seq::<Trigger>::empty());
            assert(kept(st, lines[k - 1]) =~= Seq::<Trigger>::empty());
        }
    }
}

/// A trigger with a count of `n` fires on exactly the first `n` of a run of
/// lines that it matches, and on none after.
pub proof fn law_counted_trigger(t: Trigger, lines: Seq<Line>, k: int)
    requires
        t.count matches Some(n) && n >= 1,
        0 <= k < lines.len(),
        forall|j: int| 0 <= j < lines.len() ==> fires(t, #[trigger] lines[j]),
    ensures
        (fired_on(after_lines(seq![t], lines.subrange(0, k)), lines[k]).len() > 0) == (k < t.count->0),
{
    let n = t.count->0;
    lemma_counted_state(t, n, lines, k);
    let st = after_lines(seq![t], lines.subrange(0, k));
    if k < n {
        let tc = with_count(t, (n - k) as u32);
        assert(fires(tc, lines[k]) == fires(t, lines[k]));
        assert(st.drop_last() =~= Seq::<Trigger>::empty());
        assert(st.last() == tc);
    } else {
        assert(st.len() == 0);
    }
}

/// A trigger that is not raw sees only the printable text of a line: it does
/// not fire on a line whose printable chars its regex does not match, whatever
/// the escape sequences of the line hold.
pub proof fn law_plain_trigger_ignores_escapes(t: Trigger, line: Line)
    requires
        !t.raw,
        !regex_finds(t.regex@, printable_of(line.content@)),
    ensures
        !fires(t, line),
        fired_on(seq![t], line).len() == 0,
{
    assert(seq![t].drop_last() =~= Seq::<Trigger>::empty());
    assert(fired_on(Seq::<Trigger>::empty(), line).len() == 0);
}

} // verus!
