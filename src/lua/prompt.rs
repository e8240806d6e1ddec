use vstd::prelude::*;
use crate::event::Event;
use crate::lua::lua_script::LuaScript;
use crate::lua::registry::{table, ListenerKind};

verus! {

/// The `prompt` library of the scripts: the text and cursor of the input line.
#[derive(Debug, Clone, Copy)]
pub struct Prompt {}

impl Prompt {
    /// Replaces the text of the input line.
    pub fn set(host: &mut LuaScript, line: &str)
        ensures
            final(host).prompt_content@ == line@,
            final(host).events@.len() == old(host).events@.len() + 1,
            final(host).events@.drop_last() == old(host).events@,
            final(host).events@.last() matches Event::SetPromptInput(s) && s@ == line@,
            *final(host) == (LuaScript {
                prompt_content: final(host).prompt_content,
                events: final(host).events,
                ..*old(host)
            }),
    {
        host.events.push(Event::SetPromptInput(String::from_str(line)));
        host.prompt_content = String::from_str(line);
        assert(host.events@.drop_last() =~= old(host).events@);
    }

    /// Moves the cursor to the 1-based position `offset`; the renderer gets it
    /// 0-based. Refused (nothing happens) for 0.
    pub fn set_cursor(host: &mut LuaScript, offset: u32) -> (r: bool)
        ensures
            r == (offset >= 1),
            !r ==> *final(host) == *old(host),
            r ==> final(host).events@ == old(host).events@.push(Event::SetPromptInputCursor((offset - 1) as usize))
                && *final(host) == (LuaScript {
                prompt_cursor: offset as usize,
                events: final(host).events,
                ..*old(host)
            }),
    {
        if offset == 0 {
            return false;
        }
        host.prompt_cursor = offset as usize;
        host.events.push(Event::SetPromptInputCursor((offset - 1) as usize));
        true
    }

    /// The text of the input line.
    pub fn get(host: &LuaScript) -> (r: String)
        ensures
            r@ == host.prompt_content@,
    {
        host.prompt_content.clone()
    }

    /// The cursor position, 1-based.
    pub fn get_cursor(host: &LuaScript) -> (r: usize)
        ensures
            r == host.prompt_cursor,
    {
        host.prompt_cursor
    }

    /// Installs a listener for changes of the input line.
    pub fn add_prompt_listener(host: &mut LuaScript) -> (r: Option<u32>)
        requires
            old(host).wf(),
        ensures
            final(host).wf(),
            old(host).listeners.next_id < u32::MAX ==> r == Some(old(host).listeners.next_id)
                && final(host).listeners.next_id == old(host).listeners.next_id + 1,
            r matches Some(id) ==> table(final(host).listeners.entries@, ListenerKind::PromptInput, old(host).core_mode)
                == table(old(host).listeners.entries@, ListenerKind::PromptInput, old(host).core_mode).push(id),
            *final(host) == (LuaScript { listeners: final(host).listeners, ..*old(host) }),
    {
        host.add_listener(ListenerKind::PromptInput)
    }
}

} // verus!
