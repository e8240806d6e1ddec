use vstd::prelude::*;
use crate::event::{Event, UiEvent};
use crate::lua::macros::{command_event, is_command, parse_command};
use crate::lua::timer::{refired, sat_add, TimerEntry, TimerSchedule};
use crate::lua::registry::{call_order, table, ListenerKind, Registry};
use crate::lua::trigger::{
    aliases_fired_on, fired_on, fired_view, flags_after, gags, kept, AliasGroup, Fired, TriggerGroup,
};
use crate::model::completions::{
    any_failed, failure_trace, first_failure, lock_after, offered, CompletionReply, Completions,
};
use crate::model::line::{Line, LineFlags};
use crate::model::prompt_mask::PromptMask;
use crate::text::str_eq;

verus! {

/// The persistent key/value store of the scripts, kept across resets.
#[derive(Debug, PartialEq, Eq, Clone)]
pub struct Store {
    pub entries: Vec<(String, String)>,
}

/// The value stored under `key` in `entries`, the latest write winning.
pub open spec fn stored(entries: Seq<(String, String)>, key: Seq<char>) -> Option<Seq<char>>
    decreases entries.len(),
{
    if entries.len() == 0 {
        None
    } else if entries.last().0@ == key {
        Some(entries.last().1@)
    } else {
        stored(entries.drop_last(), key)
    }
}

impl Store {
    pub fn new() -> (r: Store)
        ensures
            r.entries@.len() == 0,
    {
        Store { entries: Vec::new() }
    }

    /// Stores `value` under `key`.
    pub fn set(&mut self, key: String, value: String)
        ensures
            forall|k: Seq<char>| #[trigger] stored(final(self).entries@, k) == if k == key@ {
                Some(value@)
            } else {
                stored(old(self).entries@, k)
            },
    {
        self.entries.push((key, value));
        assert(self.entries@.drop_last() =~= old(self).entries@);
    }

    /// The value stored under `key`, if any.
    pub fn get(&self, key: &str) -> (r: Option<String>)
        ensures
            r matches Some(v) ==> stored(self.entries@, key@) == Some(v@),
            r is None ==> stored(self.entries@, key@) is None,
    {
        let mut i: usize = self.entries.len();
        assert(self.entries@.subrange(0, i as int) =~= self.entries@);
        while i > 0
            invariant
                i <= self.entries.len(),
                stored(self.entries@, key@) == stored(self.entries@.subrange(0, i as int), key@),
            decreases i,
        {
            let ghost pre = self.entries@.subrange(0, i as int);
            assert(pre.drop_last() =~= self.entries@.subrange(0, i - 1));
            if str_eq(self.entries[i - 1].0.as_str(), key) {
                return Some(self.entries[i - 1].1.clone());
            }
            i -= 1;
        }
        None
    }
}

/// Sets up a scripting host.
#[derive(Debug, PartialEq, Eq, Clone, Copy)]
pub struct LuaScriptBuilder {
    pub dimensions: (u16, u16),
    pub reader_mode: bool,
    pub tts_enabled: bool,
}

impl LuaScriptBuilder {
    /// Zero dimensions, reader mode and speech off.
    pub fn new() -> (r: Self)
        ensures
            r.dimensions == (0u16, 0u16),
            !r.reader_mode,
            !r.tts_enabled,
    {
        LuaScriptBuilder { dimensions: (0, 0), reader_mode: false, tts_enabled: false }
    }

    pub fn reader_mode(self, reader_mode: bool) -> (r: Self)
        ensures
            r == (LuaScriptBuilder { reader_mode, ..self }),
    {
        LuaScriptBuilder { reader_mode, ..self }
    }

    pub fn tts_enabled(self, tts_enabled: bool) -> (r: Self)
        ensures
            r == (LuaScriptBuilder { tts_enabled, ..self }),
    {
        LuaScriptBuilder { tts_enabled, ..self }
    }

    pub fn dimensions(self, dimensions: (u16, u16)) -> (r: Self)
        ensures
            r == (LuaScriptBuilder { dimensions, ..self }),
    {
        LuaScriptBuilder { dimensions, ..self }
    }

    /// A host with no listener, trigger, alias, timer or binding, not connected,
    /// with an empty prompt and store, in user mode.
    pub fn build(self) -> (r: LuaScript)
        ensures
            r.wf(),
            r.is_fresh(),
            r.store.entries@.len() == 0,
            r.dimensions == self.dimensions,
            r.reader_mode == self.reader_mode,
            r.tts_enabled == self.tts_enabled,
    {
        LuaScript::create(self, Store::new())
    }
}

/// The scripting host: every registry that scripts fill, the state they read,
/// and the events and output they produce. A method that raises an event hands
/// back the ids of the listeners to call, in order; the embedding calls them.
#[derive(Debug)]
pub struct LuaScript {
    /// Listener tables of every kind, core and user.
    pub listeners: Registry,
    /// Timed callbacks, with their own id counter.
    pub timers: Registry,
    /// When the timed callbacks fire.
    pub schedule: TimerSchedule,
    pub triggers: TriggerGroup,
    pub aliases: AliasGroup,
    /// Keys with a command binding.
    pub bindings: Vec<String>,
    /// Whether completions replace the default completers, as the last
    /// completion callback that said so asked.
    pub completion_lock: bool,
    /// While set, new listeners go to the core tables.
    pub core_mode: bool,
    pub is_connected: bool,
    pub connection_id: u16,
    pub prompt_content: String,
    /// Cursor position in the prompt, 1-based.
    pub prompt_cursor: usize,
    pub prompt_mask: PromptMask,
    pub store: Store,
    pub dimensions: (u16, u16),
    pub reader_mode: bool,
    pub tts_enabled: bool,
    /// Events for the bus, oldest first.
    pub events: Vec<Event>,
    /// Lines that scripts printed, oldest first.
    pub output_lines: Vec<Line>,
    /// Layout changes that scripts asked for, oldest first.
    pub ui_events: Vec<UiEvent>,
}

/// How the walk of a line through its listeners ended: with the line the last
/// listener handed back, or with the stack trace of the one that failed.
#[derive(Debug, PartialEq, Eq, Clone)]
pub enum ChainResult {
    Finished(Line),
    Failed(String),
}

/// What a line of output or input set off: the triggers or aliases that fired,
/// then the listeners to pass the line through, in order, and the line that the
/// walk starts from. The caller's line is left as it was.
#[derive(Debug, PartialEq, Eq, Clone)]
pub struct Dispatch {
    pub fired: Vec<Fired>,
    pub listeners: Vec<u32>,
    /// The line as the walk starts with it: the caller's line with what the
    /// triggers or commands set on it. It is written back only by a walk that
    /// finishes.
    pub view: Line,
}

impl LuaScript {
    pub open spec fn wf(&self) -> bool {
        &&& self.listeners.wf()
        &&& self.timers.wf()
        &&& self.schedule.wf()
        &&& self.triggers.wf()
        &&& self.aliases.wf()
        &&& self.prompt_mask.wf()
    }

    /// Nothing installed, nothing pending, as `build` leaves it.
    pub open spec fn is_fresh(&self) -> bool {
        &&& self.listeners.entries@.len() == 0
        &&& self.listeners.next_id == 1
        &&& self.timers.entries@.len() == 0
        &&& self.timers.next_id == 1
        &&& self.triggers.next_id == 1
        &&& self.aliases.next_id == 1
        &&& !self.completion_lock
        &&& self.schedule.entries@.len() == 0
        &&& self.triggers.triggers@.len() == 0
        &&& self.aliases.aliases@.len() == 0
        &&& self.bindings@.len() == 0
        &&& !self.core_mode
        &&& !self.is_connected
        &&& self.connection_id == 0
        &&& self.prompt_content@.len() == 0
        &&& self.prompt_cursor == 0
        &&& self.prompt_mask@.len() == 0
        &&& self.events@.len() == 0
        &&& self.output_lines@.len() == 0
        &&& self.ui_events@.len() == 0
    }

    fn create(builder: LuaScriptBuilder, store: Store) -> (r: LuaScript)
        ensures
            r.wf(),
            r.is_fresh(),
            r.store == store,
            r.dimensions == builder.dimensions,
            r.reader_mode == builder.reader_mode,
            r.tts_enabled == builder.tts_enabled,
    {
        LuaScript {
            listeners: Registry::new(),
            timers: Registry::new(),
            schedule: TimerSchedule::new(),
            triggers: TriggerGroup::new(),
            aliases: AliasGroup::new(),
            bindings: Vec::new(),
            completion_lock: false,
            core_mode: false,
            is_connected: false,
            connection_id: 0,
            prompt_content: String::new(),
            prompt_cursor: 0,
            prompt_mask: PromptMask::new(),
            store,
            dimensions: builder.dimensions,
            reader_mode: builder.reader_mode,
            tts_enabled: builder.tts_enabled,
            events: Vec::new(),
            output_lines: Vec::new(),
            ui_events: Vec::new(),
        }
    }

    /// Rebuilds the host with new dimensions: every listener, trigger, alias,
    /// timer and binding is gone; the store, reader mode and speech setting stay.
    pub fn reset(&mut self, dimensions: (u16, u16))
        ensures
            final(self).wf(),
            final(self).is_fresh(),
            forall|kind: ListenerKind| #[trigger] table(final(self).listeners.entries@, kind, false).len() == 0,
            final(self).store == old(self).store,
            final(self).dimensions == dimensions,
            final(self).reader_mode == old(self).reader_mode,
            final(self).tts_enabled == old(self).tts_enabled,
    {
        let mut store = Store::new();
        core::mem::swap(&mut store, &mut self.store);
        let builder = LuaScriptBuilder {
            dimensions,
            reader_mode: self.reader_mode,
            tts_enabled: self.tts_enabled,
        };
        *self = LuaScript::create(builder, store);
    }

    /// Sends new listeners to the core tables (`true`) or the user tables.
    pub fn set_core_mode(&mut self, core: bool)
        ensures
            *final(self) == (LuaScript { core_mode: core, ..*old(self) }),
    {
        self.core_mode = core;
    }

    /// Installs a listener for `kind` in the table the mode selects.
    pub fn add_listener(&mut self, kind: ListenerKind) -> (r: Option<u32>)
        requires
            old(self).wf(),
        ensures
            final(self).wf(),
            old(self).listeners.next_id < u32::MAX ==> r == Some(old(self).listeners.next_id)
                && final(self).listeners.next_id == old(self).listeners.next_id + 1
                && final(self).listeners.entries@ == old(self).listeners.entries@.push(
                crate::lua::registry::Listener { id: old(self).listeners.next_id, kind, core: old(self).core_mode },
            ),
            old(self).listeners.next_id == u32::MAX ==> r is None,
            *final(self) == (LuaScript { listeners: final(self).listeners, ..*old(self) }),
            r matches Some(id) ==> table(final(self).listeners.entries@, kind, old(self).core_mode)
                == table(old(self).listeners.entries@, kind, old(self).core_mode).push(id),
            r matches Some(id) ==> table(final(self).listeners.entries@, kind, !old(self).core_mode)
                == table(old(self).listeners.entries@, kind, !old(self).core_mode),
            r is None ==> final(self).listeners == old(self).listeners,
    {
        let core = self.core_mode;
        let r = self.listeners.add(kind, core);
        if r.is_some() {
            assert(self.listeners.entries@.drop_last() =~= old(self).listeners.entries@);
        }
        r
    }

    /// Removes the listener with id `id`; returns whether there was one.
    pub fn remove_listener(&mut self, id: u32) -> (r: bool)
        requires
            old(self).wf(),
        ensures
            final(self).wf(),
            *final(self) == (LuaScript { listeners: final(self).listeners, ..*old(self) }),
            r == exists|i: int| 0 <= i < old(self).listeners.entries@.len() && old(self).listeners.entries@[i].id == id,
            forall|kind: ListenerKind| !(#[trigger] call_order(final(self).listeners.entries@, kind)).contains(id),
    {
        let r = self.listeners.remove(id);
        proof {
            assert forall|kind: ListenerKind| !(#[trigger] call_order(self.listeners.entries@, kind)).contains(id) by {
                crate::lua::registry::lemma_table_absent(self.listeners.entries@, kind, true, id);
                crate::lua::registry::lemma_table_absent(self.listeners.entries@, kind, false, id);
            }
        }
        r
    }

    /// The listeners for `kind`, core first, in insertion order.
    pub fn listeners_for(&self, kind: ListenerKind) -> (r: Vec<u32>)
        ensures
            r@ == call_order(self.listeners.entries@, kind),
    {
        self.listeners.listeners(kind)
    }
}

impl LuaScript {
    /// Listeners to call before the host is rebuilt.
    pub fn on_reset(&self) -> (r: Vec<u32>)
        ensures
            r@ == call_order(self.listeners.entries@, ListenerKind::ScriptReset),
    {
        self.listeners.listeners(ListenerKind::ScriptReset)
    }

    /// Listeners for a file-system event.
    pub fn handle_fs_event(&self) -> (r: Vec<u32>)
        ensures
            r@ == call_order(self.listeners.entries@, ListenerKind::FsEvent),
    {
        self.listeners.listeners(ListenerKind::FsEvent)
    }

    /// Listeners for the quit of the client.
    pub fn on_quit(&self) -> (r: Vec<u32>)
        ensures
            r@ == call_order(self.listeners.entries@, ListenerKind::Quit),
    {
        self.listeners.listeners(ListenerKind::Quit)
    }

    /// Listeners for a new prompt text; each gets `content`.
    pub fn on_prompt_update(&self, content: &str) -> (r: Vec<u32>)
        ensures
            r@ == call_order(self.listeners.entries@, ListenerKind::PromptInput),
    {
        self.listeners.listeners(ListenerKind::PromptInput)
    }

    /// Tick listeners, core before user; each gets the elapsed milliseconds.
    pub fn tick(&self, millis: u128) -> (r: Vec<u32>)
        ensures
            r@ == call_order(self.listeners.entries@, ListenerKind::Tick),
    {
        self.listeners.listeners(ListenerKind::Tick)
    }

    /// Listeners for a telnet option the server enabled.
    pub fn proto_enabled(&self, proto: u8) -> (r: Vec<u32>)
        ensures
            r@ == call_order(self.listeners.entries@, ListenerKind::ProtoEnabled),
    {
        self.listeners.listeners(ListenerKind::ProtoEnabled)
    }

    /// Listeners for a subnegotiation the server sent.
    pub fn proto_subneg(&self, proto: u8, bytes: &[u8]) -> (r: Vec<u32>)
        ensures
            r@ == call_order(self.listeners.entries@, ListenerKind::ProtoSubneg),
    {
        self.listeners.listeners(ListenerKind::ProtoSubneg)
    }

    /// Records the connection and hands back the connect listeners; each gets
    /// the host and port.
    pub fn on_connect(&mut self, host: &str, port: u16, id: u16) -> (r: Vec<u32>)
        ensures
            *final(self) == (LuaScript { is_connected: true, connection_id: id, ..*old(self) }),
            r@ == call_order(old(self).listeners.entries@, ListenerKind::Connect),
    {
        self.is_connected = true;
        self.connection_id = id;
        self.listeners.listeners(ListenerKind::Connect)
    }

    /// Records the disconnect and hands back the disconnect listeners.
    pub fn on_disconnect(&mut self) -> (r: Vec<u32>)
        ensures
            *final(self) == (LuaScript { is_connected: false, ..*old(self) }),
            r@ == call_order(old(self).listeners.entries@, ListenerKind::Disconnect),
    {
        self.is_connected = false;
        self.listeners.listeners(ListenerKind::Disconnect)
    }

    /// Records new terminal dimensions and hands back their listeners; each
    /// gets the width and height.
    pub fn set_dimensions(&mut self, dim: (u16, u16)) -> (r: Vec<u32>)
        ensures
            *final(self) == (LuaScript { dimensions: dim, ..*old(self) }),
            r@ == call_order(old(self).listeners.entries@, ListenerKind::DimensionsChange),
    {
        self.dimensions = dim;
        self.listeners.listeners(ListenerKind::DimensionsChange)
    }

    pub fn set_reader_mode(&mut self, reader_mode: bool)
        ensures
            *final(self) == (LuaScript { reader_mode, ..*old(self) }),
    {
        self.reader_mode = reader_mode;
    }

    pub fn set_tts_enabled(&mut self, tts_enabled: bool)
        ensures
            *final(self) == (LuaScript { tts_enabled, ..*old(self) }),
    {
        self.tts_enabled = tts_enabled;
    }

    /// The client's name and version.
    pub fn version(&self) -> (r: (String, String))
        ensures
            r.0@ == crate::lua::constants::PROJECT_NAME@,
            r.1@ == crate::lua::constants::VERSION@,
    {
        (String::from_str(crate::lua::constants::PROJECT_NAME), String::from_str(crate::lua::constants::VERSION))
    }

    /// The terminal's width and height.
    pub fn terminal_dimensions(&self) -> (r: (u16, u16))
        ensures
            r == self.dimensions,
    {
        self.dimensions
    }

    /// Registers a timed callback in the table the mode selects and returns its id.
    pub fn add_timed_function(&mut self) -> (r: Option<u32>)
        requires
            old(self).wf(),
        ensures
            final(self).wf(),
            *final(self) == (LuaScript { timers: final(self).timers, ..*old(self) }),
            old(self).timers.next_id < u32::MAX ==> r == Some(old(self).timers.next_id)
                && final(self).timers.next_id == old(self).timers.next_id + 1
                && final(self).timers.entries@ == old(self).timers.entries@.push(
                crate::lua::registry::Listener { id: old(self).timers.next_id, kind: ListenerKind::Timed, core: old(self).core_mode },
            ),
            old(self).timers.next_id == u32::MAX ==> r is None && final(self).timers == old(self).timers,
    {
        let core = self.core_mode;
        self.timers.add(ListenerKind::Timed, core)
    }

    /// Whether a timed callback with id `id` is registered, in either table: if
    /// so it is to be called, else the timer was removed and nothing happens.
    pub fn run_timed_function(&self, id: u32) -> (r: bool)
        ensures
            r == exists|i: int| 0 <= i < self.timers.entries@.len() && self.timers.entries@[i].id == id,
    {
        self.timers.contains(id)
    }

    /// Drops the timed callback with id `id` from both tables and from the schedule.
    pub fn remove_timed_function(&mut self, id: u32)
        requires
            old(self).wf(),
        ensures
            final(self).wf(),
            *final(self) == (LuaScript { timers: final(self).timers, schedule: final(self).schedule, ..*old(self) }),
            forall|i: int| 0 <= i < final(self).timers.entries@.len() ==> final(self).timers.entries@[i].id != id,
            final(self).timers.next_id == old(self).timers.next_id,
            (exists|i: int|
                0 <= i < old(self).timers.entries@.len() && old(self).timers.entries@[i].id == id
                    && final(self).timers.entries@ == old(self).timers.entries@.remove(i))
                || final(self).timers.entries@ == old(self).timers.entries@,
            final(self).schedule.entries@.to_set() == old(self).schedule.entries@.to_set().filter(|x: TimerEntry| x.id != id),
    {
        self.timers.remove(id);
        self.schedule.remove(id);
    }

    /// Registers a timed callback that fires `delay` milliseconds after `now`,
    /// then every `delay`, `count` times in all (0: without end); returns its id.
    pub fn add_timer(&mut self, now: u64, delay: u64, count: u32) -> (r: Option<u32>)
        requires
            old(self).wf(),
        ensures
            final(self).wf(),
            *final(self) == (LuaScript { timers: final(self).timers, schedule: final(self).schedule, ..*old(self) }),
            old(self).timers.next_id == u32::MAX ==> r is None && final(self).timers == old(self).timers
                && final(self).schedule == old(self).schedule,
            old(self).timers.next_id < u32::MAX ==> r == Some(old(self).timers.next_id)
                && final(self).timers.next_id == old(self).timers.next_id + 1
                && final(self).timers.entries@ == old(self).timers.entries@.push(
                crate::lua::registry::Listener { id: old(self).timers.next_id, kind: ListenerKind::Timed, core: old(self).core_mode },
            ) && final(self).schedule.entries@.to_set() == old(self).schedule.entries@.to_set().filter(
                |x: TimerEntry| x.id != old(self).timers.next_id,
            ).insert(TimerEntry { id: old(self).timers.next_id, due: sat_add(now, delay), interval: delay, remaining: count }),
    {
        let r = self.add_timed_function();
        if let Some(id) = r {
            self.schedule.add(id, now, delay, count);
        }
        r
    }

    /// The timed callbacks due at `now`, in firing order (by deadline, ties by
    /// id); each moves on to its next firing or, after its last, leaves the schedule.
    pub fn fire_timers(&mut self, now: u64) -> (r: Vec<u32>)
        requires
            old(self).wf(),
        ensures
            final(self).wf(),
            *final(self) == (LuaScript { schedule: final(self).schedule, ..*old(self) }),
            forall|i: int| 0 <= i < r@.len() ==> old(self).schedule.entries@[i].due <= now,
            forall|i: int| 0 <= i < r@.len() ==> r@[i] == old(self).schedule.entries@[i].id,
            forall|i: int| r@.len() <= i < old(self).schedule.entries@.len() ==> old(self).schedule.entries@[i].due > now,
            final(self).schedule.entries@.to_set() == old(self).schedule.entries@.subrange(
                r@.len() as int,
                old(self).schedule.entries@.len() as int,
            ).to_set() + refired(old(self).schedule.entries@.subrange(0, r@.len() as int)),
    {
        self.schedule.fire_due(now)
    }

    /// Takes the lines that scripts printed since the last call.
    pub fn get_output_lines(&mut self) -> (r: Vec<Line>)
        ensures
            r@ == old(self).output_lines@,
            *final(self) == (LuaScript { output_lines: final(self).output_lines, ..*old(self) }),
            final(self).output_lines@.len() == 0,
    {
        let mut out: Vec<Line> = Vec::new();
        core::mem::swap(&mut out, &mut self.output_lines);
        out
    }

    /// Takes the layout changes that scripts asked for since the last call.
    pub fn get_ui_events(&mut self) -> (r: Vec<UiEvent>)
        ensures
            r@ == old(self).ui_events@,
            *final(self) == (LuaScript { ui_events: final(self).ui_events, ..*old(self) }),
            final(self).ui_events@.len() == 0,
    {
        let mut out: Vec<UiEvent> = Vec::new();
        core::mem::swap(&mut out, &mut self.ui_events);
        out
    }

    /// Gives the status area `height` lines.
    pub fn status_height(&mut self, height: u16)
        ensures
            final(self).ui_events@ == old(self).ui_events@.push(UiEvent::StatusAreaHeight(height)),
            *final(self) == (LuaScript { ui_events: final(self).ui_events, ..*old(self) }),
    {
        self.ui_events.push(UiEvent::StatusAreaHeight(height));
    }

    /// Sets the text of line `index` of the status area.
    pub fn status_line(&mut self, index: usize, text: String)
        ensures
            final(self).ui_events@ == old(self).ui_events@.push(UiEvent::StatusLine(index, text)),
            *final(self) == (LuaScript { ui_events: final(self).ui_events, ..*old(self) }),
    {
        self.ui_events.push(UiEvent::StatusLine(index, text));
    }

    /// Takes the events raised since the last call, for the bus.
    pub fn take_events(&mut self) -> (r: Vec<Event>)
        ensures
            r@ == old(self).events@,
            *final(self) == (LuaScript { events: final(self).events, ..*old(self) }),
            final(self).events@.len() == 0,
    {
        let mut out: Vec<Event> = Vec::new();
        core::mem::swap(&mut out, &mut self.events);
        out
    }

    /// Records the prompt's text as the server last sent it.
    pub fn set_prompt_content(&mut self, content: String)
        ensures
            *final(self) == (LuaScript { prompt_content: content, ..*old(self) }),
    {
        self.prompt_content = content;
    }

    /// Records the mask that the prompt now shows.
    pub fn set_prompt_mask_content(&mut self, mask: PromptMask)
        requires
            mask.wf(),
            old(self).wf(),
        ensures
            final(self).wf(),
            *final(self) == (LuaScript { prompt_mask: mask, ..*old(self) }),
    {
        self.prompt_mask = mask;
    }

    /// Prints a line made of `parts` joined with spaces.
    pub fn output(&mut self, parts: &Vec<String>)
        ensures
            final(self).output_lines@.len() == old(self).output_lines@.len() + 1,
            final(self).output_lines@.drop_last() == old(self).output_lines@,
            final(self).output_lines@.last().content@ == crate::text::joined(parts@.map_values(|p: String| p@)),
            final(self).output_lines@.last().replacement is None,
            final(self).output_lines@.last().flags == crate::model::line::no_flags(),
            *final(self) == (LuaScript { output_lines: final(self).output_lines, ..*old(self) }),
    {
        let text = crate::text::join_spaced(parts);
        self.output_lines.push(Line::new(text.as_str()));
        assert(self.output_lines@.drop_last() =~= old(self).output_lines@);
    }

    /// Raises an event.
    fn send(&mut self, event: Event)
        ensures
            final(self).events@ == old(self).events@.push(event),
            *final(self) == (LuaScript { events: final(self).events, ..*old(self) }),
    {
        self.events.push(event);
    }

    /// Sends `text` to the server.
    pub fn mud_send(&mut self, text: &str)
        ensures
            final(self).events@.len() == old(self).events@.len() + 1,
            final(self).events@.drop_last() == old(self).events@,
            final(self).events@.last() matches Event::ServerInput(l)
                && l.content@ == text@ && l.replacement is None && l.flags == crate::model::line::no_flags(),
            *final(self) == (LuaScript { events: final(self).events, ..*old(self) }),
    {
        self.send(Event::ServerInput(Line::new(text)));
        assert(self.events@.drop_last() =~= old(self).events@);
    }

    /// Asks for the script at `path` to be loaded.
    pub fn script_load(&mut self, path: &str)
        ensures
            final(self).events@.len() == old(self).events@.len() + 1,
            final(self).events@.drop_last() == old(self).events@,
            final(self).events@.last() matches Event::LoadScript(p) && p@ == path@,
            *final(self) == (LuaScript { events: final(self).events, ..*old(self) }),
    {
        self.send(Event::LoadScript(String::from_str(path)));
        assert(self.events@.drop_last() =~= old(self).events@);
    }

    /// Asks for the host to be rebuilt.
    pub fn script_reset(&mut self)
        ensures
            final(self).events@ == old(self).events@.push(Event::ResetScript),
            *final(self) == (LuaScript { events: final(self).events, ..*old(self) }),
    {
        self.send(Event::ResetScript);
    }

    /// Asks the session to enable telnet option `proto`.
    pub fn enable_protocol(&mut self, proto: u8)
        ensures
            final(self).events@ == old(self).events@.push(Event::EnableProto(proto)),
            *final(self) == (LuaScript { events: final(self).events, ..*old(self) }),
    {
        self.send(Event::EnableProto(proto));
    }

    /// Asks the session to send `bytes` as a subnegotiation of option `proto`.
    pub fn subneg_send(&mut self, proto: u8, bytes: Vec<u8>)
        ensures
            final(self).events@ == old(self).events@.push(Event::ProtoSubnegSend(proto, bytes)),
            *final(self) == (LuaScript { events: final(self).events, ..*old(self) }),
    {
        self.send(Event::ProtoSubnegSend(proto, bytes));
    }

    /// Whether `cmd` has a binding; if so its callback is to be called.
    pub fn check_bindings(&self, cmd: &str) -> (r: bool)
        ensures
            r == exists|i: int| 0 <= i < self.bindings@.len() && self.bindings@[i]@ == cmd@,
    {
        self.binding(cmd).is_some()
    }

    /// The binding that `cmd` calls: the latest one made for its key.
    pub fn binding(&self, cmd: &str) -> (r: Option<usize>)
        ensures
            r is None == !exists|i: int| 0 <= i < self.bindings@.len() && self.bindings@[i]@ == cmd@,
            r matches Some(i) ==> i < self.bindings@.len() && self.bindings@[i as int]@ == cmd@
                && forall|j: int| i < j < self.bindings@.len() ==> self.bindings@[j]@ != cmd@,
    {
        let mut i: usize = self.bindings.len();
        while i > 0
            invariant
                i <= self.bindings.len(),
                forall|j: int| i <= j < self.bindings@.len() ==> self.bindings@[j]@ != cmd@,
            decreases i,
        {
            if str_eq(self.bindings[i - 1].as_str(), cmd) {
                return Some(i - 1);
            }
            i -= 1;
        }
        None
    }

    /// Binds the key sequence `key`, in lower case, to a command; returns the
    /// binding's index.
    pub fn bind(&mut self, key: &str) -> (r: usize)
        ensures
            r == old(self).bindings@.len(),
            final(self).bindings@ == old(self).bindings@.push(final(self).bindings@.last()),
            final(self).bindings@.last()@ == crate::text::lower_of(key@),
            *final(self) == (LuaScript { bindings: final(self).bindings, ..*old(self) }),
    {
        let k = crate::text::lowercase(key);
        let r = self.bindings.len();
        self.bindings.push(k);
        assert(self.bindings@ =~= old(self).bindings@.push(self.bindings@.last()));
        r
    }

    /// Completion listeners, in the order they are asked.
    pub fn completion_listeners(&self) -> (r: Vec<u32>)
        ensures
            r@ == call_order(self.listeners.entries@, ListenerKind::Completion),
    {
        self.listeners.listeners(ListenerKind::Completion)
    }

    /// Folds what the completion listeners returned for one input, in the order
    /// they were asked: their strings sorted without duplicates, locked as the
    /// last flag given in this call says, or else as the lock kept from before,
    /// which is then kept in turn. When one of them failed: no candidates,
    /// unlocked, the kept lock unchanged, and its stack trace raised as `Info`.
    pub fn tab_complete(&mut self, replies: &Vec<CompletionReply>) -> (r: Completions)
        ensures
            r.wf(),
            any_failed(replies@) ==> {
                &&& r.completions@.len() == 0 && !r.locked
                &&& final(self).events@.len() == old(self).events@.len() + 1
                &&& final(self).events@.drop_last() == old(self).events@
                &&& final(self).events@.last() matches Event::Info(t) && first_failure(replies@, t@)
                &&& *final(self) == (LuaScript { events: final(self).events, ..*old(self) })
            },
            !any_failed(replies@) ==> {
                &&& r.entry_set() == offered(replies@)
                &&& r.locked == lock_after(replies@, old(self).completion_lock)
                &&& *final(self) == (LuaScript { completion_lock: r.locked, ..*old(self) })
            },
    {
        let r = Completions::from_replies(replies, self.completion_lock);
        match failure_trace(replies) {
            Some(trace) => {
                self.send(Event::Info(trace));
                assert(self.events@.drop_last() =~= old(self).events@);
            },
            None => {
                self.completion_lock = r.locked;
            },
        }
        r
    }

    /// Raises the stack trace of a script error as `Info`.
    pub fn script_error(&mut self, trace: String)
        ensures
            final(self).events@ == old(self).events@.push(Event::Info(trace)),
            *final(self) == (LuaScript { events: final(self).events, ..*old(self) }),
    {
        self.send(Event::Info(trace));
    }

    /// Ends the walk of a line of output through the triggers' callbacks and the
    /// listeners: `line` is the caller's line, which `on_mud_output` left as it
    /// was. The line the walk handed back replaces it (its replacement, if any,
    /// is what is shown); if a callback failed, nothing of the walk is written
    /// back, not even the trigger flags, and the stack trace is raised.
    pub fn finish_output_chain(&mut self, line: &mut Line, result: ChainResult)
        ensures
            result matches ChainResult::Finished(l) ==> *final(line) == l && *final(self) == *old(self),
            result matches ChainResult::Failed(t) ==> *final(line) == *old(line)
                && final(self).events@ == old(self).events@.push(Event::Info(t))
                && *final(self) == (LuaScript { events: final(self).events, ..*old(self) }),
    {
        match result {
            ChainResult::Finished(l) => {
                *line = l;
            },
            ChainResult::Failed(t) => {
                self.send(Event::Info(t));
            },
        }
    }

    /// Ends the walk of a line of input through its listeners, as for output;
    /// in addition a failed walk marks the line matched, so that it is not sent
    /// to the server unprocessed.
    pub fn finish_input_chain(&mut self, line: &mut Line, result: ChainResult)
        ensures
            result matches ChainResult::Finished(l) ==> *final(line) == l && *final(self) == *old(self),
            result matches ChainResult::Failed(t) ==> *final(line) == (Line {
                flags: LineFlags { matched: true, ..old(line).flags },
                ..*old(line)
            }) && final(self).events@ == old(self).events@.push(Event::Info(t))
                && *final(self) == (LuaScript { events: final(self).events, ..*old(self) }),
    {
        match result {
            ChainResult::Finished(l) => {
                *line = l;
            },
            ChainResult::Failed(t) => {
                line.flags.matched = true;
                self.send(Event::Info(t));
            },
        }
    }

    /// Runs a line of server output through the triggers, unless it bypasses
    /// scripts, and hands back the output listeners to pass it through. The
    /// trigger engine is the first core listener (the built-in module installed
    /// before any other), so it runs before every listener of the table. The
    /// flags it sets go to the returned view; `line` itself is untouched until
    /// `finish_output_chain`.
    pub fn on_mud_output(&mut self, line: &Line) -> (r: Dispatch)
        requires
            old(self).wf(),
        ensures
            final(self).wf(),
            line.flags.bypass_script ==> *final(self) == *old(self) && r.view == *line
                && r.fired@.len() == 0 && r.listeners@.len() == 0,
            !line.flags.bypass_script ==> {
                &&& *final(self) == (LuaScript { triggers: final(self).triggers, ..*old(self) })
                &&& final(self).triggers.next_id == old(self).triggers.next_id
                &&& final(self).triggers.triggers@ == kept(old(self).triggers.triggers@, *line)
                &&& r.fired@.map_values(|f: Fired| fired_view(f)) == fired_on(old(self).triggers.triggers@, *line)
                &&& r.listeners@ == call_order(old(self).listeners.entries@, ListenerKind::MudOutput)
                &&& r.view.content == line.content
                &&& r.view.replacement == line.replacement
                &&& r.view.flags == flags_after(
                    line.flags,
                    fired_on(old(self).triggers.triggers@, *line).len() > 0,
                    gags(old(self).triggers.triggers@, *line),
                )
            },
    {
        let mut view = line.duplicate();
        if line.flags.bypass_script {
            return Dispatch { fired: Vec::new(), listeners: Vec::new(), view };
        }
        let fired = self.triggers.on_output(&mut view);
        let listeners = self.listeners.listeners(ListenerKind::MudOutput);
        Dispatch { fired, listeners, view }
    }
}

impl LuaScript {
    /// Runs a line of user input, unless it bypasses scripts: a client command
    /// raises its event and marks the view matched; then the aliases run over
    /// it; the input listeners to pass it through are handed back. `line`
    /// itself is untouched until `finish_input_chain`.
    pub fn on_mud_input(&mut self, line: &Line) -> (r: Dispatch)
        ensures
            line.flags.bypass_script ==> *final(self) == *old(self) && r.view == *line && r.fired@.len() == 0
                && r.listeners@.len() == 0,
            !line.flags.bypass_script ==> {
                let command = is_command(line.content@);
                let fired = aliases_fired_on(old(self).aliases.aliases@, *line);
                &&& *final(self) == (LuaScript { events: final(self).events, ..*old(self) })
                &&& command ==> final(self).events@.len() == old(self).events@.len() + 1
                    && final(self).events@.drop_last() == old(self).events@
                    && command_event(line.content@, final(self).events@.last())
                &&& !command ==> final(self).events@ == old(self).events@
                &&& r.fired@.map_values(|f: Fired| fired_view(f)) == fired
                &&& r.listeners@ == call_order(old(self).listeners.entries@, ListenerKind::MudInput)
                &&& r.view.content == line.content
                &&& r.view.replacement == line.replacement
                &&& r.view.flags == flags_after(line.flags, command || fired.len() > 0, false)
            },
    {
        let mut view = line.duplicate();
        if line.flags.bypass_script {
            return Dispatch { fired: Vec::new(), listeners: Vec::new(), view };
        }
        let command = parse_command(line.content.as_str());
        if let Some(e) = command {
            self.send(e);
            view.flags.matched = true;
            assert(self.events@.drop_last() =~= old(self).events@);
        }
        let ghost view1 = view;
        let fired = self.aliases.on_input(&mut view);
        proof {
            lemma_aliases_same_text(self.aliases.aliases@, *line, view1);
        }
        let listeners = self.listeners.listeners(ListenerKind::MudInput);
        Dispatch { fired, listeners, view }
    }
}

/// Aliases only read the content of a line.
proof fn lemma_aliases_same_text(aliases: Seq<crate::lua::trigger::Alias>, a: Line, b: Line)
    requires
        a.content == b.content,
    ensures
        aliases_fired_on(aliases, a) == aliases_fired_on(aliases, b),
    decreases aliases.len(),
{
    if aliases.len() > 0 {
        lemma_aliases_same_text(aliases.drop_last(), a, b);
    }
}

/// Index of the last `/` in `path`, or -1 when there is none.
pub open spec fn last_slash(path: Seq<char>) -> int
    decreases path.len(),
{
    if path.len() == 0 {
        -1
    } else if path.last() == '/' {
        path.len() - 1
    } else {
        last_slash(path.drop_last())
    }
}

/// The directory of a script: what precedes the last `/` of its path, empty
/// when there is no `/`.
pub open spec fn script_dir_of(path: Seq<char>) -> Seq<char> {
    if last_slash(path) < 0 {
        Seq::empty()
    } else {
        path.subrange(0, last_slash(path))
    }
}

/// `path` with a leading `~` replaced by `home`.
pub open spec fn expanded(path: Seq<char>, home: Seq<char>) -> Seq<char> {
    if path.len() > 0 && path[0] == '~' {
        home + path.skip(1)
    } else {
        path
    }
}

/// How to run a script file: where to read it (a file that cannot be read is
/// an error, and nothing runs), the directory it is named after, the module
/// search path while it runs, and the search path to put back once it has run,
/// whether it succeeded or raised.
#[derive(Debug, PartialEq, Eq, Clone)]
pub struct ScriptLoad {
    pub file_path: String,
    pub dir: String,
    pub search_path: String,
    pub restore_path: String,
}

impl LuaScript {
    /// How to load the script at `path`: `~` expanded to `home`, its directory,
    /// and `<dir>/?.lua` put in front of the search path `current`, which is to
    /// be restored afterwards, even when the script fails.
    pub fn load_script(path: &str, home: &str, current: &str) -> (r: ScriptLoad)
        ensures
            r.file_path@ == expanded(path@, home@),
            r.dir@ == script_dir_of(expanded(path@, home@)),
            r.search_path@ == script_dir_of(expanded(path@, home@)) + "/?.lua;"@ + current@,
            r.restore_path@ == current@,
    {
        let file_path = LuaScript::expand_tilde(path, home);
        let dir = LuaScript::script_dir(file_path.as_str());
        let search_path = LuaScript::script_search_path(dir.as_str(), current);
        ScriptLoad { file_path, dir, search_path, restore_path: String::from_str(current) }
    }

    /// The path of a script with a leading `~` replaced by the home directory.
    pub fn expand_tilde(path: &str, home: &str) -> (r: String)
        ensures
            r@ == expanded(path@, home@),
    {
        let n = path.unicode_len();
        if n > 0 && path.get_char(0) == '~' {
            let mut r = String::from_str(home);
            r.append(path.substring_char(1, n));
            r
        } else {
            String::from_str(path)
        }
    }

    /// The directory that a script is loaded from and named after.
    pub fn script_dir(path: &str) -> (r: String)
        ensures
            r@ == script_dir_of(path@),
    {
        let mut i: usize = path.unicode_len();
        assert(path@.subrange(0, i as int) =~= path@);
        while i > 0
            invariant
                i <= path@.len(),
                last_slash(path@) == last_slash(path@.subrange(0, i as int)),
            decreases i,
        {
            assert(path@.subrange(0, i as int).drop_last() =~= path@.subrange(0, i - 1));
            if path.get_char(i - 1) == '/' {
                return String::from_str(path.substring_char(0, i - 1));
            }
            i -= 1;
        }
        proof {
            assert(path@.subrange(0, 0).len() == 0);
        }
        String::new()
    }

    /// The module search path while a script from `dir` runs: modules next to
    /// the script come first, then those of `current`.
    pub fn script_search_path(dir: &str, current: &str) -> (r: String)
        ensures
            r@ == dir@ + "/?.lua;"@ + current@,
    {
        let mut r = String::from_str(dir);
        r.append("/?.lua;");
        r.append(current);
        r
    }
}

} // verus!
