use blightmud::event::{Event, QuitMethod};
use blightmud::lua::constants::{C_BLUE, C_CYAN, C_GREEN, C_MAGENTA, C_RED, C_RESET, C_WHITE, C_YELLOW};
use blightmud::lua::lua_script::{ChainResult, LuaScript, LuaScriptBuilder};
use blightmud::lua::prompt::Prompt;
use blightmud::lua::prompt_mask::PromptMask as PromptMaskLib;
use blightmud::model::prompt_mask::PromptMask;
use std::collections::BTreeMap;
use blightmud::lua::registry::ListenerKind;
use blightmud::lua::trigger::TriggerOptions;
use blightmud::model::completions::{CompletionReply, Completions};
use blightmud::model::connection::Connection;
use blightmud::model::line::Line;

fn get_lua() -> LuaScript {
    LuaScriptBuilder::new().dimensions((80, 80)).build()
}

fn test_trigger(line: &str, lua: &mut LuaScript) -> bool {
    let mut line = Line::new(line);
    let dispatch = lua.on_mud_output(&line);
    lua.finish_output_chain(&mut line, ChainResult::Finished(dispatch.view));
    line.flags.matched
}

fn test_prompt_trigger(line: &str, lua: &mut LuaScript) -> bool {
    let mut line = Line::new(line);
    line.flags.prompt = true;
    let dispatch = lua.on_mud_output(&line);
    lua.finish_output_chain(&mut line, ChainResult::Finished(dispatch.view));
    line.flags.matched
}

fn check_alias_match(lua: &mut LuaScript, mut line: Line) -> bool {
    let dispatch = lua.on_mud_input(&line);
    lua.finish_input_chain(&mut line, ChainResult::Finished(dispatch.view));
    line.flags.matched
}

fn owned(v: &[&str]) -> Vec<String> {
    v.iter().map(|s| s.to_string()).collect()
}

#[test]
fn test_lua_trigger() {
    let mut lua = get_lua();
    lua.triggers.add("^test$", TriggerOptions { gag: true, ..TriggerOptions::new() }).unwrap();
    assert!(test_trigger("test", &mut lua));
    assert!(!test_trigger("test test", &mut lua));
}

#[test]
fn test_lua_counted_trigger() {
    let mut lua = get_lua();
    lua.triggers.add("^test$", TriggerOptions { count: Some(3), ..TriggerOptions::new() }).unwrap();
    assert!(test_trigger("test", &mut lua));
    assert!(test_trigger("test", &mut lua));
    assert!(test_trigger("test", &mut lua));
    assert!(!test_trigger("test", &mut lua));
}

#[test]
fn test_lua_prompt_trigger() {
    let mut lua = get_lua();
    lua.triggers
        .add("^test$", TriggerOptions { prompt: true, gag: true, ..TriggerOptions::new() })
        .unwrap();
    assert!(test_prompt_trigger("test", &mut lua));
    assert!(!test_prompt_trigger("test test", &mut lua));
}

#[test]
fn test_lua_trigger_id_increment() {
    let mut lua = get_lua();
    lua.triggers.add("^test regular$", TriggerOptions::new()).unwrap();
    lua.triggers.add("^test regular$", TriggerOptions::new()).unwrap();
    let ttrig = lua.triggers.add("^test$", TriggerOptions::new()).unwrap();
    let ptrig = lua.triggers.add("^test$", TriggerOptions { prompt: true, ..TriggerOptions::new() }).unwrap();
    assert_ne!(ttrig, ptrig);
}

#[test]
fn test_lua_raw_trigger() {
    let mut lua = get_lua();
    lua.triggers
        .add("^\\x1b\\[31mtest\\x1b\\[0m$", TriggerOptions { raw: true, ..TriggerOptions::new() })
        .unwrap();
    assert!(test_trigger("\x1b[31mtest\x1b[0m", &mut lua));
    assert!(!test_trigger("test", &mut lua));
}

#[test]
fn test_remove_trigger() {
    let mut lua = get_lua();
    let ttrig = lua.triggers.add("^test$", TriggerOptions::new()).unwrap();
    let ptrig = lua.triggers.add("^test$", TriggerOptions { prompt: true, ..TriggerOptions::new() }).unwrap();

    assert!(test_trigger("test", &mut lua));
    assert!(test_prompt_trigger("test", &mut lua));

    lua.triggers.remove(ttrig);

    assert!(test_prompt_trigger("test", &mut lua));
    assert!(!test_trigger("test", &mut lua));

    lua.triggers.remove(ptrig);

    assert!(!test_trigger("test", &mut lua));
    assert!(!test_prompt_trigger("test", &mut lua));
}

#[test]
fn test_lua_alias() {
    let mut lua = get_lua();
    lua.aliases.add("^test$").unwrap();
    assert!(check_alias_match(&mut lua, Line::new("test")));
    assert!(!check_alias_match(&mut lua, Line::new(" test")));
}

#[test]
fn test_lua_remove_alias() {
    let mut lua = get_lua();
    let index = lua.aliases.add("^test$").unwrap();
    assert!(check_alias_match(&mut lua, Line::new("test")));
    lua.aliases.remove(index);
    assert!(!check_alias_match(&mut lua, Line::new("test")));
}

#[test]
fn test_dimensions() {
    let mut lua = get_lua();
    let listener = lua.add_listener(ListenerKind::DimensionsChange).unwrap();
    let (mut width, mut height) = (0u16, 0u16);
    assert_eq!(lua.terminal_dimensions(), (80, 80));
    for id in lua.set_dimensions((70, 70)) {
        assert_eq!(id, listener);
        width = lua.dimensions.0;
        height = lua.dimensions.1;
    }
    assert_eq!(lua.terminal_dimensions(), (70, 70));
    assert_eq!(width, 70);
    assert_eq!(height, 70);
}

#[test]
fn test_enable_proto() {
    let mut lua = get_lua();
    lua.enable_protocol(200);
    assert_eq!(lua.take_events(), vec![Event::EnableProto(200)]);
}

#[test]
fn test_proto_send() {
    let mut lua = get_lua();
    lua.subneg_send(201, vec![255, 250, 86, 255, 240]);
    assert_eq!(lua.take_events(), vec![Event::ProtoSubnegSend(201, vec![255, 250, 86, 255, 240])]);
}

#[test]
fn test_output() {
    let mut lua = get_lua();
    lua.output(&owned(&["test", "test"]));
    assert_eq!(lua.get_output_lines(), vec![Line::new("test test")]);
}

#[test]
fn test_load() {
    let mut lua = get_lua();
    lua.script_load("/some/fancy/path");
    assert_eq!(lua.take_events(), vec![Event::LoadScript("/some/fancy/path".to_string())]);
}

#[test]
fn test_reset() {
    let mut lua = get_lua();
    lua.script_reset();
    assert_eq!(lua.take_events(), vec![Event::ResetScript]);
}

#[test]
fn test_sending() {
    let mut lua = get_lua();
    lua.mud_send("message");
    assert_eq!(lua.take_events(), vec![Event::ServerInput(Line::new("message"))]);
}

#[test]
fn test_conditional_gag() {
    let mut lua = get_lua();
    lua.triggers.add("^Health (\\d+)$", TriggerOptions::new()).unwrap();

    let mut line = Line::new("Health 100");
    let dispatch = lua.on_mud_output(&line);
    let mut view = dispatch.view;
    for fired in dispatch.fired {
        if fired.captures[1].as_deref() == Some("100") {
            view.gag(true);
        }
    }
    lua.finish_output_chain(&mut line, ChainResult::Finished(view));
    assert!(line.flags.gag);
    assert!(line.flags.matched);

    let mut line = Line::new("Health 10");
    let dispatch = lua.on_mud_output(&line);
    let mut view = dispatch.view;
    for fired in dispatch.fired {
        if fired.captures[1].as_deref() == Some("100") {
            view.gag(true);
        }
    }
    lua.finish_output_chain(&mut line, ChainResult::Finished(view));
    assert!(!line.flags.gag);
    assert!(line.flags.matched);
}

fn check_color(lua: &mut LuaScript, color: &str, result: &str) {
    lua.output(&vec![format!("{}COLOR{}", color, C_RESET)]);
    assert_eq!(lua.get_output_lines()[0], Line::new(result));
}

#[test]
fn test_color_output() {
    let mut lua = get_lua();
    check_color(&mut lua, C_RED, "\x1b[31mCOLOR\x1b[0m");
    check_color(&mut lua, C_GREEN, "\x1b[32mCOLOR\x1b[0m");
    check_color(&mut lua, C_YELLOW, "\x1b[33mCOLOR\x1b[0m");
    check_color(&mut lua, C_BLUE, "\x1b[34mCOLOR\x1b[0m");
    check_color(&mut lua, C_MAGENTA, "\x1b[35mCOLOR\x1b[0m");
    check_color(&mut lua, C_CYAN, "\x1b[36mCOLOR\x1b[0m");
    check_color(&mut lua, C_WHITE, "\x1b[37mCOLOR\x1b[0m");
}

fn press(lua: &mut LuaScript, cmd: &str, outputs: &[(&str, &str)]) {
    if let Some(index) = lua.binding(cmd) {
        lua.output(&owned(&[outputs[index].1]));
    }
}

#[test]
fn test_bindings() {
    let outputs = [("ctrl-a", "ctrl-a"), ("f1", "f1"), ("alt-1", "alt-1"), ("\x1b[1;5A", "ctrl-up")];
    let mut lua = get_lua();
    for (key, _) in outputs.iter() {
        lua.bind(key);
    }

    press(&mut lua, "ctrl-a", &outputs);
    assert_eq!(lua.get_output_lines(), [Line::new("ctrl-a")]);
    press(&mut lua, "alt-1", &outputs);
    assert_eq!(lua.get_output_lines(), [Line::new("alt-1")]);
    press(&mut lua, "f1", &outputs);
    assert_eq!(lua.get_output_lines(), [Line::new("f1")]);
    press(&mut lua, "ctrl-0", &outputs);
    assert_eq!(lua.get_output_lines(), []);
    press(&mut lua, "\x1b[1;5a", &outputs);
    assert_eq!(lua.get_output_lines(), [Line::new("ctrl-up")]);
}

fn install_connect_listeners(lua: &mut LuaScript) -> Vec<u32> {
    (0..3).map(|_| lua.add_listener(ListenerKind::Connect).unwrap()).collect()
}

fn connect(lua: &mut LuaScript, ids: &[u32], host: &str, port: u16, id: u16) {
    for listener in lua.on_connect(host, port, id) {
        let n = ids.iter().position(|i| *i == listener).unwrap() + 1;
        lua.output(&vec![format!("{}:{}-{}", host, port, n)]);
    }
}

#[test]
fn test_on_connect_test() {
    let mut lua = get_lua();
    let ids = install_connect_listeners(&mut lua);
    connect(&mut lua, &ids, "test", 21, 12);
    assert_eq!(
        lua.get_output_lines(),
        [Line::new("test:21-1"), Line::new("test:21-2"), Line::new("test:21-3")]
    );
    assert_eq!(lua.connection_id, 12);
    lua.reset((100, 100));
    let ids = install_connect_listeners(&mut lua);
    connect(&mut lua, &ids, "server", 1000, 13);
    assert_eq!(
        lua.get_output_lines(),
        [Line::new("server:1000-1"), Line::new("server:1000-2"), Line::new("server:1000-3")]
    );
    assert_eq!(lua.connection_id, 13);
}

fn disconnect(lua: &mut LuaScript, ids: &[u32]) {
    for listener in lua.on_disconnect() {
        let n = ids.iter().position(|i| *i == listener).unwrap() + 1;
        lua.output(&vec![format!("disconnected{}", n)]);
    }
}

#[test]
fn test_on_disconnect_test() {
    let mut lua = get_lua();
    let ids: Vec<u32> = (0..3).map(|_| lua.add_listener(ListenerKind::Disconnect).unwrap()).collect();
    disconnect(&mut lua, &ids);
    assert_eq!(
        lua.get_output_lines(),
        [Line::new("disconnected1"), Line::new("disconnected2"), Line::new("disconnected3")]
    );
    lua.reset((100, 100));
    let ids: Vec<u32> = (0..3).map(|_| lua.add_listener(ListenerKind::Disconnect).unwrap()).collect();
    disconnect(&mut lua, &ids);
    assert_eq!(
        lua.get_output_lines(),
        [Line::new("disconnected1"), Line::new("disconnected2"), Line::new("disconnected3")]
    );
}

#[test]
fn test_alias_ids() {
    let mut lua = get_lua();
    let id = lua.aliases.add("test").unwrap();
    assert!(lua.aliases.ids().contains(&id));
    let alias = lua.aliases.aliases.iter().find(|a| a.id == id).unwrap();
    assert_eq!(alias.enabled, true);
    assert_eq!(alias.regex.as_str(), "test");
    lua.aliases.clear();
    assert!(lua.aliases.ids().is_empty());
}

#[test]
fn test_trigger_ids() {
    let mut lua = get_lua();
    let id = lua.triggers.add("test", TriggerOptions::new()).unwrap();
    assert!(lua.triggers.ids().contains(&id));
    let trigger = lua.triggers.triggers.iter().find(|t| t.id == id).unwrap();
    assert_eq!(trigger.regex.as_str(), "test");
    assert_eq!(trigger.enabled, true);
    assert_eq!(trigger.gag, false);
    assert_eq!(trigger.raw, false);
    assert_eq!(trigger.prompt, false);
    lua.triggers.clear();
    assert!(lua.triggers.ids().is_empty());
}

fn input(lua: &mut LuaScript, text: &str) -> Event {
    let mut line = Line::new(text);
    let dispatch = lua.on_mud_input(&line);
    lua.finish_input_chain(&mut line, ChainResult::Finished(dispatch.view));
    assert!(line.flags.matched);
    let mut events = lua.take_events();
    assert_eq!(events.len(), 1);
    events.remove(0)
}

#[test]
fn confirm_connection_macros() {
    let mut lua = get_lua();
    assert_eq!(
        input(&mut lua, "/connect example.com 4000"),
        Event::Connect(Connection::new("example.com", 4000, false, false))
    );
    assert_eq!(
        input(&mut lua, "/connect example.com 4000 true"),
        Event::Connect(Connection::new("example.com", 4000, true, true))
    );
    assert_eq!(
        input(&mut lua, "/connect example.com 4000 true true"),
        Event::Connect(Connection::new("example.com", 4000, true, true))
    );
    assert_eq!(
        input(&mut lua, "/connect example.com 4000 true false"),
        Event::Connect(Connection::new("example.com", 4000, true, false))
    );
    assert_eq!(input(&mut lua, "/disconnect"), Event::Disconnect);
    assert_eq!(input(&mut lua, "/reconnect"), Event::Reconnect);
}

#[test]
fn confirm_logging_macros() {
    let mut lua = get_lua();
    assert_eq!(input(&mut lua, "/start_log test"), Event::StartLogging("test".to_string(), true));
    assert_eq!(input(&mut lua, "/stop_log"), Event::StopLogging);
}

#[test]
fn confirm_load_macro() {
    let mut lua = get_lua();
    assert_eq!(input(&mut lua, "/load test"), Event::LoadScript("test".to_string()));
}

#[test]
fn confirm_quit_macro() {
    let mut lua = get_lua();
    assert_eq!(input(&mut lua, "/quit"), Event::Quit(QuitMethod::Script));
    assert_eq!(input(&mut lua, "/q"), Event::Quit(QuitMethod::Script));
}

#[test]
fn confirm_help_macro() {
    let mut lua = get_lua();
    assert_eq!(input(&mut lua, "/help test1"), Event::ShowHelp("test1".to_string(), true));
}

#[test]
fn confirm_search_macros() {
    let mut lua = get_lua();
    assert_eq!(input(&mut lua, "/search test1"), Event::FindBackward("test1".to_string()));
    assert_eq!(input(&mut lua, "/s test1"), Event::FindBackward("test1".to_string()));
}

#[test]
fn confirm_tick_callback() {
    let mut lua = get_lua();
    let listener = lua.add_listener(ListenerKind::Tick).unwrap();
    let mut total_millis: u128 = 0;
    for expected in [100u128, 200, 300] {
        for id in lua.tick(100) {
            assert_eq!(id, listener);
            total_millis += 100;
        }
        assert_eq!(total_millis, expected);
    }
}

#[test]
fn confirm_quit_callback() {
    let mut lua = get_lua();
    let listener = lua.add_listener(ListenerKind::Quit).unwrap();
    let mut quit = false;
    assert!(!quit);
    for id in lua.on_quit() {
        quit = id == listener;
    }
    assert!(quit);
}

#[test]
fn confirm_timed_function() {
    let mut lua = get_lua();
    let id = lua.add_timed_function().unwrap();
    let mut run = false;
    assert!(!run);
    if lua.run_timed_function(id) {
        run = true;
    }
    assert!(run);
}

#[test]
fn confirm_remove_timed_function() {
    let mut lua = get_lua();
    let id = lua.add_timed_function().unwrap();
    assert!(lua.run_timed_function(id));
    lua.remove_timed_function(id);
    assert!(!lua.run_timed_function(id));
}

#[test]
fn confirm_proto_enabled() {
    let mut lua = get_lua();
    let listener = lua.add_listener(ListenerKind::ProtoEnabled).unwrap();
    let mut subneg = 0u32;
    for id in lua.proto_enabled(201) {
        assert_eq!(id, listener);
        subneg = 201;
    }
    assert_eq!(subneg, 201);
}

#[test]
fn confirm_proto_subneg() {
    let mut lua = get_lua();
    let listener = lua.add_listener(ListenerKind::ProtoSubneg).unwrap();
    let mut subneg = 0u32;
    for id in lua.proto_subneg(201, &[]) {
        assert_eq!(id, listener);
        subneg = 201;
    }
    assert_eq!(subneg, 201);
}

fn reply(entries: Option<&[&str]>, lock: Option<bool>) -> CompletionReply {
    CompletionReply::Returned { entries: entries.map(owned), lock }
}

fn complete(lua: &mut LuaScript, input: &str, callback: fn(&str) -> CompletionReply) -> Completions {
    let replies: Vec<CompletionReply> = lua.completion_listeners().iter().map(|_| callback(input)).collect();
    lua.tab_complete(&replies)
}

#[test]
fn confirm_completion() {
    let mut lua = get_lua();
    lua.add_listener(ListenerKind::Completion).unwrap();
    fn callback(input: &str) -> CompletionReply {
        match input {
            "bat" => reply(Some(&["batman"]), None),
            "batm" => reply(Some(&["batman", "batmobile"]), None),
            _ => reply(None, None),
        }
    }
    assert_eq!(complete(&mut lua, "bat", callback), Completions::from_vec(owned(&["batman"])));
    assert_eq!(
        complete(&mut lua, "batm", callback),
        Completions::from_vec(owned(&["batman", "batmobile"]))
    );
    assert_eq!(complete(&mut lua, "rob", callback), Completions::default());
}

#[test]
fn confirm_completion_lock() {
    let mut lua = get_lua();
    lua.add_listener(ListenerKind::Completion).unwrap();
    fn callback(input: &str) -> CompletionReply {
        match input {
            "bat" => reply(Some(&["batman"]), Some(true)),
            "batm" => reply(Some(&["batman", "batmobile"]), Some(false)),
            "fail" => reply(None, None),
            _ => reply(Some(&[]), Some(true)),
        }
    }
    let mut result = Completions::from_vec(owned(&["batman"]));
    result.lock(true);
    assert_eq!(complete(&mut lua, "bat", callback), result);
    let result = Completions::from_vec(owned(&["batman", "batmobile"]));
    assert_eq!(complete(&mut lua, "batm", callback), result);
    let mut result = Completions::default();
    result.lock(true);
    assert_eq!(complete(&mut lua, "rob", callback), result);
    let mut result = Completions::default();
    result.lock(true);
    assert_eq!(complete(&mut lua, "fail", callback), result);
}

#[test]
fn on_prompt_update() {
    let mut lua = get_lua();
    let listener = Prompt::add_prompt_listener(&mut lua).unwrap();
    let mut buf = String::new();
    assert_eq!(buf, "");
    for id in lua.on_prompt_update("test") {
        assert_eq!(id, listener);
        buf = "test".to_string();
    }
    assert_eq!(buf, "test");
}

#[test]
fn test_version() {
    let lua = get_lua();
    let (name, version) = lua.version();
    assert_eq!(version, blightmud::lua::constants::VERSION);
    assert_eq!(name, blightmud::lua::constants::PROJECT_NAME);
}

#[test]
fn set_prompt_mask_content() {
    let mut lua = get_lua();

    let mut mask_map = BTreeMap::new();
    mask_map.insert(10, "hi".to_string());
    mask_map.insert(20, "bye".to_string());
    let mask = PromptMask::from_map(mask_map);

    lua.set_prompt_mask_content(mask);
    let result: BTreeMap<i64, String> = PromptMaskLib::get(&lua).into_iter().collect();

    assert_eq!(result.get(&11).unwrap(), "hi");
    assert_eq!(result.get(&21).unwrap(), "bye");
}
