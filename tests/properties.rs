use blightmud::event::{Event, UiEvent};
use blightmud::lua::lua_script::{ChainResult, LuaScript, LuaScriptBuilder, Store};
use blightmud::lua::prompt::Prompt;
use blightmud::lua::prompt_mask::PromptMask as PromptMaskLib;
use blightmud::lua::registry::ListenerKind;
use blightmud::lua::trigger::{TriggerError, TriggerOptions};
use blightmud::model::completions::{CompletionReply, Completions};
use blightmud::model::line::Line;
use blightmud::model::prompt_mask::PromptMask;
use blightmud::model::regex::{Pattern, RegexError};
use blightmud::ui::printable_chars::{printable_char_indices, printable_chars};
use std::collections::BTreeMap;

fn host() -> LuaScript {
    LuaScriptBuilder::new().build()
}

fn matched(lua: &mut LuaScript, text: &str) -> bool {
    let mut line = Line::new(text);
    let dispatch = lua.on_mud_output(&line);
    lua.finish_output_chain(&mut line, ChainResult::Finished(dispatch.view));
    line.flags.matched
}

#[test]
fn removed_trigger_no_longer_matches() {
    let mut lua = host();
    let id = lua.triggers.add("orc", TriggerOptions::new()).unwrap();
    assert!(matched(&mut lua, "an orc attacks"));
    assert!(lua.triggers.remove(id));
    assert!(!matched(&mut lua, "an orc attacks"));
    assert!(!lua.triggers.remove(id));
}

#[test]
fn counted_trigger_matches_first_n_lines_only() {
    let mut lua = host();
    lua.triggers.add("^hit$", TriggerOptions { count: Some(2), ..TriggerOptions::new() }).unwrap();
    assert!(!matched(&mut lua, "miss"));
    assert!(matched(&mut lua, "hit"));
    assert!(matched(&mut lua, "hit"));
    assert!(!matched(&mut lua, "hit"));
    assert!(lua.triggers.triggers.is_empty());
}

#[test]
fn mask_set_against_current_prompt() {
    let mut lua = host();
    Prompt::set(&mut lua, "ABCDE");
    lua.take_events();
    let mut map = BTreeMap::new();
    map.insert(3, "xx".to_string());
    map.insert(5, "yy".to_string());
    let mask = PromptMask::from_map(map.clone());
    assert!(PromptMaskLib::set(&mut lua, "ABCDE", mask));
    let events = lua.take_events();
    assert_eq!(events, vec![Event::SetPromptMask(PromptMask::from_map(map))]);
    if let Event::SetPromptMask(m) = &events[0] {
        let buf: Vec<char> = "ABCDE".chars().collect();
        assert_eq!(m.mask_buffer(&buf), "ABxxCDyyE");
    }
}

#[test]
fn mask_set_against_stale_prompt_is_refused() {
    let mut lua = host();
    Prompt::set(&mut lua, "HP 10");
    lua.take_events();
    let mut map = BTreeMap::new();
    map.insert(1, "!".to_string());
    assert!(!PromptMaskLib::set(&mut lua, "HP 9", PromptMask::from_map(map)));
    assert!(lua.take_events().is_empty());
}

#[test]
fn plain_trigger_ignores_escape_sequences() {
    let mut lua = host();
    lua.triggers.add("31m", TriggerOptions::new()).unwrap();
    assert!(!matched(&mut lua, "\x1b[31mtest\x1b[0m"));
    let mut raw = host();
    raw.triggers.add("31m", TriggerOptions { raw: true, ..TriggerOptions::new() }).unwrap();
    assert!(matched(&mut raw, "\x1b[31mtest\x1b[0m"));
}

#[test]
fn completions_sorted_deduplicated_last_lock_wins() {
    let mut lua = host();
    let replies = vec![
        CompletionReply::Returned {
            entries: Some(vec!["zeta".to_string(), "alpha".to_string()]),
            lock: Some(true),
        },
        CompletionReply::Returned {
            entries: Some(vec!["alpha".to_string(), "mid".to_string()]),
            lock: Some(false),
        },
        CompletionReply::Returned { entries: None, lock: None },
    ];
    let result = lua.tab_complete(&replies);
    assert_eq!(result.completions, vec!["alpha", "mid", "zeta"]);
    assert!(!result.locked);
    let failed = vec![replies[0].clone(), CompletionReply::Failed { trace: "boom".to_string() }];
    assert_eq!(lua.tab_complete(&failed), Completions::default());
    assert_eq!(lua.take_events(), vec![Event::Info("boom".to_string())]);
}

#[test]
fn completion_lock_carries_over() {
    let mut lua = host();
    let bat = vec![CompletionReply::Returned { entries: Some(vec!["batman".to_string()]), lock: Some(true) }];
    let result = lua.tab_complete(&bat);
    assert_eq!(result.completions, vec!["batman"]);
    assert!(result.locked);
    let rob = vec![CompletionReply::Returned { entries: None, lock: None }];
    let result = lua.tab_complete(&rob);
    assert!(result.completions.is_empty());
    assert!(result.locked);
}

#[test]
fn chain_results_write_back_or_report() {
    let mut lua = host();
    let mut line = Line::new("look");
    let mut changed = Line::new("look");
    changed.replace("LOOK");
    lua.finish_output_chain(&mut line, ChainResult::Finished(changed.clone()));
    assert_eq!(line, changed);
    assert_eq!(line.shown(), "LOOK");
    assert_eq!(line.content, "look");

    let mut input = Line::new("kill orc");
    lua.finish_input_chain(&mut input, ChainResult::Failed("trace".to_string()));
    assert!(input.flags.matched);
    assert_eq!(lua.take_events(), vec![Event::Info("trace".to_string())]);

    let mut output = Line::new("orc");
    lua.finish_output_chain(&mut output, ChainResult::Failed("trace".to_string()));
    assert!(!output.flags.matched);
    assert_eq!(lua.take_events(), vec![Event::Info("trace".to_string())]);
}

#[test]
fn reset_drops_listeners_and_keeps_store() {
    let mut lua = host();
    lua.store.set("key".to_string(), "value".to_string());
    lua.add_listener(ListenerKind::MudOutput).unwrap();
    lua.triggers.add("x", TriggerOptions::new()).unwrap();
    lua.bind("f1");
    let before = lua.store.clone();
    lua.reset((120, 40));
    assert!(lua.listeners_for(ListenerKind::MudOutput).is_empty());
    assert!(lua.triggers.triggers.is_empty());
    assert!(!lua.check_bindings("f1"));
    assert_eq!(lua.store, before);
    assert_eq!(lua.store.get("key"), Some("value".to_string()));
    assert_eq!(lua.terminal_dimensions(), (120, 40));
}

#[test]
fn connection_id_follows_on_connect() {
    let mut lua = host();
    lua.on_connect("host", 4000, 42);
    assert!(lua.is_connected);
    assert_eq!(lua.connection_id, 42);
    lua.on_disconnect();
    assert!(!lua.is_connected);
    assert_eq!(lua.connection_id, 42);
}

#[test]
fn core_listeners_come_before_user_listeners() {
    let mut lua = host();
    let user = lua.add_listener(ListenerKind::MudOutput).unwrap();
    lua.set_core_mode(true);
    let core = lua.add_listener(ListenerKind::MudOutput).unwrap();
    lua.set_core_mode(false);
    let user2 = lua.add_listener(ListenerKind::MudOutput).unwrap();
    lua.add_listener(ListenerKind::MudInput).unwrap();
    let line = Line::new("text");
    assert_eq!(lua.on_mud_output(&line).listeners, vec![core, user, user2]);
    assert!(lua.remove_listener(user));
    assert_eq!(lua.listeners_for(ListenerKind::MudOutput), vec![core, user2]);
}

#[test]
fn bypassing_line_skips_everything() {
    let mut lua = host();
    lua.triggers.add("x", TriggerOptions { gag: true, ..TriggerOptions::new() }).unwrap();
    lua.add_listener(ListenerKind::MudOutput).unwrap();
    let mut line = Line::new("x");
    line.flags.bypass_script = true;
    let dispatch = lua.on_mud_output(&line);
    assert!(dispatch.fired.is_empty() && dispatch.listeners.is_empty());
    assert_eq!(dispatch.view, line);
    lua.finish_output_chain(&mut line, ChainResult::Finished(dispatch.view));
    assert!(!line.flags.matched && !line.flags.gag);
}

#[test]
fn gag_trigger_gags() {
    let mut lua = host();
    lua.triggers.add("x", TriggerOptions { gag: true, ..TriggerOptions::new() }).unwrap();
    let mut line = Line::new("x");
    let dispatch = lua.on_mud_output(&line);
    lua.finish_output_chain(&mut line, ChainResult::Finished(dispatch.view));
    assert!(line.flags.gag && line.flags.matched);
}

#[test]
fn failed_output_chain_restores_the_line() {
    let mut lua = host();
    lua.triggers.add("x", TriggerOptions { gag: true, ..TriggerOptions::new() }).unwrap();
    lua.add_listener(ListenerKind::MudOutput).unwrap();
    let mut line = Line::new("x");
    let before = line.clone();
    let dispatch = lua.on_mud_output(&line);
    assert!(dispatch.view.flags.matched && dispatch.view.flags.gag);
    assert_eq!(line, before);
    lua.finish_output_chain(&mut line, ChainResult::Failed("listener failed".to_string()));
    assert_eq!(line, before);
    assert_eq!(lua.take_events(), vec![Event::Info("listener failed".to_string())]);
}

#[test]
fn failed_input_chain_marks_only_matched() {
    let mut lua = host();
    lua.aliases.add("^go$").unwrap();
    let mut line = Line::new("go");
    let dispatch = lua.on_mud_input(&line);
    assert_eq!(dispatch.fired.len(), 1);
    lua.finish_input_chain(&mut line, ChainResult::Failed("alias failed".to_string()));
    assert!(line.flags.matched);
    assert_eq!(line.content, "go");
}

#[test]
fn mask_fit_test() {
    let mut map = BTreeMap::new();
    map.insert(3, "xx".to_string());
    map.insert(5, "yy".to_string());
    let mask = PromptMask::from_map(map);
    assert!(mask.fits(5));
    assert!(mask.fits(4));
    assert!(!mask.fits(3));
    let mut zero = BTreeMap::new();
    zero.insert(0, "x".to_string());
    assert!(!PromptMask::from_map(zero).fits(10));
    assert!(PromptMask::new().fits(0));
}

#[test]
fn ui_events_are_drained() {
    let mut lua = host();
    assert!(lua.get_ui_events().is_empty());
    lua.status_height(3);
    lua.status_line(1, "hp 10".to_string());
    assert_eq!(
        lua.get_ui_events(),
        vec![UiEvent::StatusAreaHeight(3), UiEvent::StatusLine(1, "hp 10".to_string())]
    );
    assert!(lua.get_ui_events().is_empty());
}

#[test]
fn trigger_errors() {
    let mut lua = host();
    assert_eq!(lua.triggers.add("(", TriggerOptions::new()), Err(TriggerError::InvalidPattern));
    assert_eq!(
        lua.triggers.add("x", TriggerOptions { count: Some(0), ..TriggerOptions::new() }),
        Err(TriggerError::InvalidCount)
    );
    assert_eq!(lua.aliases.add("["), Err(TriggerError::InvalidPattern));
    assert!(matches!(Pattern::new("("), Err(RegexError::Invalid)));
}

#[test]
fn pattern_groups() {
    let re = Pattern::new("^(a)(b)?c").unwrap();
    assert_eq!(re.captures("ac"), Some(vec![Some("ac".to_string()), Some("a".to_string()), None]));
    assert_eq!(re.captures("xc"), None);
    assert!(re.is_match("abc"));
}

#[test]
fn printable_chars_drop_escapes() {
    assert_eq!(printable_chars("\x1b[31mred\x1b[0m"), vec!['r', 'e', 'd']);
    assert_eq!(printable_chars("plain"), "plain".chars().collect::<Vec<char>>());
    assert!(printable_chars("").is_empty());
}

#[test]
fn prompt_cursor_is_one_based() {
    let mut lua = host();
    assert!(!Prompt::set_cursor(&mut lua, 0));
    assert!(lua.take_events().is_empty());
    assert!(Prompt::set_cursor(&mut lua, 3));
    assert_eq!(Prompt::get_cursor(&lua), 3);
    assert_eq!(lua.take_events(), vec![Event::SetPromptInputCursor(2)]);
    Prompt::set(&mut lua, "look");
    assert_eq!(Prompt::get(&lua), "look");
    assert_eq!(lua.take_events(), vec![Event::SetPromptInput("look".to_string())]);
}

#[test]
fn store_latest_write_wins() {
    let mut store = Store::new();
    assert_eq!(store.get("a"), None);
    store.set("a".to_string(), "1".to_string());
    store.set("b".to_string(), "2".to_string());
    store.set("a".to_string(), "3".to_string());
    assert_eq!(store.get("a"), Some("3".to_string()));
    assert_eq!(store.get("b"), Some("2".to_string()));
}

#[test]
fn malformed_commands_are_plain_input() {
    let mut lua = host();
    for text in ["/connect example.com", "/connect example.com 70000", "/connect example.com port", "/load", "/quitnow", "say hi"] {
        let mut line = Line::new(text);
        let dispatch = lua.on_mud_input(&line);
        lua.finish_input_chain(&mut line, ChainResult::Finished(dispatch.view));
        assert!(!line.flags.matched, "{}", text);
    }
    assert!(lua.take_events().is_empty());
}

#[test]
fn bindings_are_case_insensitive_on_bind() {
    let mut lua = host();
    assert_eq!(lua.bind("CTRL-A"), 0);
    assert_eq!(lua.bind("f1"), 1);
    assert_eq!(lua.bind("ctrl-a"), 2);
    assert_eq!(lua.binding("ctrl-a"), Some(2));
    assert_eq!(lua.binding("f2"), None);
    assert!(lua.check_bindings("ctrl-a"));
    assert!(!lua.check_bindings("CTRL-A"));
}

#[test]
fn script_paths() {
    assert_eq!(LuaScript::expand_tilde("~/scripts/a.lua", "/home/me"), "/home/me/scripts/a.lua");
    assert_eq!(LuaScript::expand_tilde("/abs/a.lua", "/home/me"), "/abs/a.lua");
    assert_eq!(LuaScript::script_dir("/some/fancy/path.lua"), "/some/fancy");
    assert_eq!(LuaScript::script_dir("path.lua"), "");
    assert_eq!(LuaScript::script_search_path("/some/fancy", "./?.lua"), "/some/fancy/?.lua;./?.lua");
}

#[test]
fn timers_fire_by_deadline_then_id() {
    let mut lua = host();
    let a = lua.add_timer(0, 300, 1).unwrap();
    let b = lua.add_timer(0, 100, 2).unwrap();
    let c = lua.add_timer(0, 300, 0).unwrap();
    assert!(lua.fire_timers(50).is_empty());
    assert_eq!(lua.fire_timers(100), vec![b]);
    assert_eq!(lua.fire_timers(300), vec![b, a, c]);
    assert_eq!(lua.fire_timers(600), vec![c]);
    lua.remove_timed_function(c);
    assert!(lua.fire_timers(10_000).is_empty());
    assert!(!lua.run_timed_function(c));
    assert!(lua.run_timed_function(a));
}

#[test]
fn timer_deadline_saturates() {
    let mut lua = host();
    let id = lua.add_timer(u64::MAX - 1, 10, 1).unwrap();
    assert!(lua.fire_timers(u64::MAX - 1).is_empty());
    assert_eq!(lua.fire_timers(u64::MAX), vec![id]);
}

#[test]
fn printable_char_indices_give_byte_offsets() {
    assert_eq!(printable_char_indices("\x1b[31mab"), vec![(5, 'a'), (6, 'b')]);
    assert_eq!(printable_char_indices("a\x1b[1mb"), vec![(0, 'a'), (5, 'b')]);
    assert!(printable_char_indices("\x1b[0m").is_empty());
}

#[test]
fn load_script_plan() {
    let load = LuaScript::load_script("~/mud/init.lua", "/home/me", "./?.lua");
    assert_eq!(load.file_path, "/home/me/mud/init.lua");
    assert_eq!(load.dir, "/home/me/mud");
    assert_eq!(load.search_path, "/home/me/mud/?.lua;./?.lua");
    assert_eq!(load.restore_path, "./?.lua");
}

#[test]
fn fresh_host_hands_out_first_ids() {
    let mut lua = host();
    assert_eq!(lua.add_listener(ListenerKind::Connect), Some(1));
    assert_eq!(lua.triggers.add("x", TriggerOptions::new()), Ok(1));
    assert_eq!(lua.aliases.add("x"), Ok(1));
    assert_eq!(lua.add_timed_function(), Some(1));
    lua.reset((80, 24));
    assert_eq!(lua.add_listener(ListenerKind::Connect), Some(1));
    assert_eq!(lua.triggers.add("x", TriggerOptions::new()), Ok(1));
}

#[test]
fn removing_a_timer_keeps_the_others() {
    let mut lua = host();
    let a = lua.add_timer(0, 10, 0).unwrap();
    let b = lua.add_timer(0, 20, 0).unwrap();
    lua.remove_timed_function(a);
    assert!(!lua.run_timed_function(a));
    assert!(lua.run_timed_function(b));
    assert_eq!(lua.fire_timers(20), vec![b]);
}
