use vstd::prelude::*;
use crate::event::Event;
use crate::lua::lua_script::LuaScript;

verus! {

/// The `prompt_mask` library of the scripts: overlays on the prompt.
#[derive(Debug, Clone, Copy)]
pub struct PromptMask {}

impl PromptMask {
    /// Asks for `mask` to be shown over the prompt, provided the prompt still
    /// reads `data`: then the event is raised and `true` returned; otherwise
    /// nothing happens and `false` is returned.
    pub fn set(host: &mut LuaScript, data: &str, mask: crate::model::prompt_mask::PromptMask) -> (r: bool)
        ensures
            r == (data@ == old(host).prompt_content@),
            r ==> final(host).events@ == old(host).events@.push(Event::SetPromptMask(mask))
                && *final(host) == (LuaScript { events: final(host).events, ..*old(host) }),
            !r ==> *final(host) == *old(host),
    {
        if !crate::text::str_eq(host.prompt_content.as_str(), data) {
            return false;
        }
        host.events.push(Event::SetPromptMask(mask));
        true
    }

    /// The mask the prompt shows now, as scripts read it: each value under its
    /// stored position plus one, in ascending order.
    pub fn get(host: &LuaScript) -> (r: Vec<(i64, String)>)
        ensures
            r@.len() == host.prompt_mask@.len(),
            forall|i: int|
                0 <= i < r@.len() ==> #[trigger] r@[i].0 == host.prompt_mask@[i].0 + 1 && r@[i].1@
                    == host.prompt_mask@[i].1,
    {
        let entries = host.prompt_mask.entries();
        let mut r: Vec<(i64, String)> = Vec::new();
        let mut i: usize = 0;
        while i < entries.len()
            invariant
                i <= entries.len(),
                entries@.map_values(|e: (i32, String)| (e.0, e.1@)) == host.prompt_mask@,
                r@.len() == i,
                forall|k: int|
                    0 <= k < i ==> #[trigger] r@[k].0 == host.prompt_mask@[k].0 + 1 && r@[k].1@
                        == host.prompt_mask@[k].1,
            decreases entries.len() - i,
        {
            let (key, value) = &entries[i];
            assert(host.prompt_mask@[i as int] == (*key, value@));
            r.push((*key as i64 + 1, value.clone()));
            i += 1;
        }
        r
    }
}

} // verus!
