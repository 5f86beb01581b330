use blightmud::event::{Event, Fault};
use blightmud::line::Line;
use blightmud::lua::blight::{delivery, BlightMud, UiEvent, NOBODY_LISTENS};
use blightmud::lua::callbacks::{next_number, trigger_table, NOTHING_THERE};
use blightmud::lua::constants::{PROMPT_TRIGGER_TABLE, TIMED_FUNCTION_TABLE, TRIGGER_TABLE};
use blightmud::lua::lua_script::LuaScript;
use std::sync::mpsc::{channel, Receiver};

fn get_lua() -> (LuaScript, Receiver<Event>) {
    let (writer, reader) = channel();
    (LuaScript::new(writer, (80, 24)).unwrap(), reader)
}

/// A script state in which a script has run without an error.
fn with_script(script: &str) -> (LuaScript, Receiver<Event>) {
    let (mut lua, reader) = get_lua();
    run(&mut lua, &reader, script);
    (lua, reader)
}

fn run(lua: &mut LuaScript, reader: &Receiver<Event>, script: &str) {
    assert_eq!(lua.load_script("test.lua", script), Ok(()));
    let events: Vec<Event> = reader.try_iter().collect();
    assert_eq!(events, []);
}

fn output(lua: &mut LuaScript) -> Vec<String> {
    let lines = lua.get_output_lines().unwrap();
    lines.iter().map(|line| line.line().to_string()).collect()
}

fn errors(reader: &Receiver<Event>) -> Vec<String> {
    reader
        .try_iter()
        .map(|event| match event {
            Event::Error(text) => text,
            other => panic!("not an error: {:?}", other),
        })
        .collect()
}

fn is_script_fault<T>(res: Result<T, Fault>) -> bool {
    matches!(res, Err(Fault::Script(_)))
}

#[test]
fn output_is_handed_out_once() {
    let (mut lua, _reader) = with_script("blight:output('one') blight:output('two', 'three')");
    assert_eq!(output(&mut lua), ["one", "two three"]);
    assert_eq!(output(&mut lua), Vec::<String>::new());
}

#[test]
fn ui_events_are_handed_out_once() {
    let (mut lua, _reader) = with_script("blight:output('kept') blight:ui('scroll_up')");
    assert_eq!(
        lua.get_ui_events(),
        Ok(vec![UiEvent { command: "scroll_up".to_string() }])
    );
    assert_eq!(lua.get_ui_events(), Ok(vec![]));
    assert_eq!(output(&mut lua), ["kept"]);
}

#[test]
fn dimensions_leave_the_rest_alone() {
    let (mut lua, reader) = with_script("blight:output('kept') blight:ui('scroll_up')");
    assert_eq!(lua.set_dimensions((1, 2)), Ok(()));
    assert_eq!(
        lua.get_ui_events(),
        Ok(vec![UiEvent { command: "scroll_up".to_string() }])
    );
    run(&mut lua, &reader, "blight:output(blight:terminal_dimensions())");
    assert_eq!(output(&mut lua), ["kept", "1 2"]);
}

#[test]
fn the_callback_of_an_alias_gets_the_groups() {
    let (mut lua, _reader) = with_script(
        r#"blight:add_alias("^say (\\w+)( loud)?$", function (matches)
            blight:output(#matches, matches[1], matches[2], "<" .. matches[3] .. ">")
        end)"#,
    );
    assert_eq!(lua.check_for_alias_match(&Line::from("say hi")), Ok(true));
    assert_eq!(output(&mut lua), ["3 say hi hi <>"]);
    assert_eq!(lua.check_for_alias_match(&Line::from("say hi loud")), Ok(true));
    assert_eq!(output(&mut lua), ["3 say hi loud hi < loud>"]);
    assert_eq!(lua.check_for_alias_match(&Line::from("shout")), Ok(false));
    assert_eq!(output(&mut lua), Vec::<String>::new());
}

#[test]
fn every_matching_alias_is_called() {
    let (mut lua, reader) = with_script(
        r#"
        blight:add_alias("a", function () blight:output("first") end)
        blight:add_alias("a", function () error("broken") end)
        blight:add_alias("a", function () blight:output("third") end)
        "#,
    );
    assert_eq!(lua.check_for_alias_match(&Line::from("a")), Ok(true));
    assert_eq!(output(&mut lua), ["first", "third"]);
    let lines = errors(&reader);
    assert!(lines[0].contains("broken"));
    assert!(lines.len() > 1);
}

#[test]
fn lines_that_bypass_scripts_match_no_alias() {
    let (mut lua, _reader) = with_script("blight:add_alias('', function () end)");
    let mut line = Line::from("anything");
    assert_eq!(lua.check_for_alias_match(&line), Ok(true));
    line.flags.bypass_script = true;
    assert_eq!(lua.check_for_alias_match(&line), Ok(false));
}

#[test]
fn disabled_aliases_and_triggers_are_not_called() {
    let (mut lua, reader) = with_script(
        r#"
        alias = blight:add_alias("^a$", function () end)
        trigger = blight:add_trigger("^a$", {}, function () end)
        blight:enable_alias(alias, false)
        blight:enable_trigger(trigger, false)
        "#,
    );
    assert_eq!(lua.check_for_alias_match(&Line::from("a")), Ok(false));
    let mut line = Line::from("a");
    assert_eq!(lua.check_for_trigger_match(&mut line), Ok(()));
    assert_eq!(line, Line::from("a"));
    run(
        &mut lua,
        &reader,
        "blight:enable_alias(alias, true) blight:enable_trigger(trigger, true)",
    );
    assert_eq!(lua.check_for_alias_match(&Line::from("a")), Ok(true));
    assert_eq!(lua.check_for_trigger_match(&mut line), Ok(()));
    assert!(line.flags.matched);
}

#[test]
fn triggers_see_the_clean_line_unless_they_are_raw() {
    let (mut lua, _reader) = with_script(
        r#"
        blight:add_trigger("^red$", {}, function (m) blight:output("clean", m[1]) end)
        blight:add_trigger("^\\x1b\\[31mred", {raw=true}, function (m) blight:output("raw") end)
        "#,
    );
    let mut line = Line::from("\x1b[31mred\x1b[0m");
    assert_eq!(lua.check_for_trigger_match(&mut line), Ok(()));
    assert_eq!(output(&mut lua), ["clean red", "raw"]);
    assert!(line.flags.matched && !line.flags.gag);
    assert_eq!(line.line(), "\x1b[31mred\x1b[0m");
}

#[test]
fn the_last_trigger_that_is_called_decides_about_the_line() {
    let (mut lua, _reader) = with_script(
        r#"
        blight:add_trigger("^a", {gag=true}, function () end)
        blight:add_trigger("^ab$", {}, function () end)
        blight:add_trigger("^abc$", {}, function () blight:gag() end)
        "#,
    );
    let mut line = Line::from("a");
    assert_eq!(lua.check_for_trigger_match(&mut line), Ok(()));
    assert!(line.flags.gag);
    let mut line = Line::from("ab");
    assert_eq!(lua.check_for_trigger_match(&mut line), Ok(()));
    assert!(!line.flags.gag);
    let mut line = Line::from("abc");
    assert_eq!(lua.check_for_trigger_match(&mut line), Ok(()));
    assert!(line.flags.gag);
    let mut line = Line::from("b");
    assert_eq!(lua.check_for_trigger_match(&mut line), Ok(()));
    assert!(!line.flags.gag && !line.flags.matched);
}

#[test]
fn a_gag_does_not_outlive_its_line() {
    let (mut lua, _reader) = with_script(
        r#"
        blight:add_trigger("^a$", {gag=true}, function () blight:gag() end)
        blight:add_trigger("^b$", {}, function () end)
        blight:gag()
        "#,
    );
    let mut line = Line::from("a");
    assert_eq!(lua.check_for_trigger_match(&mut line), Ok(()));
    assert!(line.flags.gag);
    let mut line = Line::from("b");
    assert_eq!(lua.check_for_trigger_match(&mut line), Ok(()));
    assert!(line.flags.matched && !line.flags.gag);
}

#[test]
fn a_trigger_that_another_one_removes_is_not_called() {
    let (mut lua, _reader) = with_script(
        r#"
        local second
        blight:add_trigger("^a$", {}, function ()
            blight:output("first")
            blight:remove_trigger(second)
        end)
        second = blight:add_trigger("^a$", {}, function () blight:output("second") end)
        "#,
    );
    let mut line = Line::from("a");
    assert_eq!(lua.check_for_trigger_match(&mut line), Ok(()));
    assert_eq!(output(&mut lua), ["first"]);
}

#[test]
fn entries_stay_reachable_when_their_table_is_replaced() {
    let (mut lua, _reader) = with_script(
        r#"
        blight:add_alias("^a$", function ()
            blight:output("first")
            __alias_table = {}
        end)
        blight:add_alias("^a$", function () blight:output("second") end)
        blight:add_trigger("^a$", {}, function ()
            blight:output("third")
            __trigger_table = {}
        end)
        blight:add_trigger("^a$", {}, function () blight:output("fourth") end)
        "#,
    );
    assert_eq!(lua.check_for_alias_match(&Line::from("a")), Ok(true));
    assert_eq!(output(&mut lua), ["first", "second"]);
    assert_eq!(lua.check_for_alias_match(&Line::from("a")), Ok(false));
    let mut line = Line::from("a");
    assert_eq!(lua.check_for_trigger_match(&mut line), Ok(()));
    assert_eq!(output(&mut lua), ["third", "fourth"]);
    assert_eq!(lua.check_for_trigger_match(&mut line), Ok(()));
    assert_eq!(output(&mut lua), Vec::<String>::new());
}

#[test]
fn removed_entries_do_not_come_back_through_a_metatable() {
    let (mut lua, _reader) = with_script(
        r#"
        blight:add_alias("^a$", function ()
            blight:output("first")
            local second = __alias_table[3]
            blight:remove_alias(3)
            setmetatable(__alias_table, { __index = function () return second end })
        end)
        blight:add_alias("^a$", function () blight:output("second") end)
        "#,
    );
    assert_eq!(lua.check_for_alias_match(&Line::from("a")), Ok(true));
    assert_eq!(output(&mut lua), ["first"]);
}

#[test]
fn a_callback_cannot_change_its_own_entry() {
    let (mut lua, reader) = with_script(
        r#"
        local alias, trigger
        alias = blight:add_alias("^a$", function () blight:enable_alias(alias, false) end)
        trigger = blight:add_trigger("^a$", {}, function ()
            blight:enable_trigger(trigger, false)
        end)
        "#,
    );
    for _ in 0..2 {
        assert_eq!(lua.check_for_alias_match(&Line::from("a")), Ok(true));
        assert!(errors(&reader)[0].contains("borrow"));
        let mut line = Line::from("a");
        assert_eq!(lua.check_for_trigger_match(&mut line), Ok(()));
        assert!(line.flags.matched);
        assert!(errors(&reader)[0].contains("borrow"));
    }
}

#[test]
fn aliases_and_triggers_have_numbers_of_their_own() {
    assert_eq!(next_number(None), Some(1));
    assert_eq!(next_number(Some(7)), Some(8));
    assert_eq!(next_number(Some(u32::MAX)), None);
    assert_eq!(trigger_table(false), TRIGGER_TABLE);
    assert_eq!(trigger_table(true), PROMPT_TRIGGER_TABLE);
    let (mut lua, _reader) = with_script(
        r#"
        local alias = blight:add_alias("a", function () end)
        local trigger = blight:add_trigger("a", {}, function () end)
        blight:remove_trigger(trigger)
        local prompt = blight:add_trigger("a", {prompt=true}, function () end)
        blight:output(trigger - alias, prompt - alias)
        blight:output(tostring(__prompt_trigger_table[prompt] ~= nil))
        "#,
    );
    assert_eq!(output(&mut lua), ["1 2", "true"]);
}

#[test]
fn what_is_not_there_cannot_be_turned_off() {
    let (mut lua, reader) = get_lua();
    for script in [
        "blight:enable_alias(99, false)",
        "blight:enable_trigger(99, false)",
    ] {
        assert_eq!(lua.load_script("test.lua", script), Ok(()));
        assert!(errors(&reader)[0].contains(NOTHING_THERE));
    }
    run(&mut lua, &reader, "blight:remove_alias(99) blight:remove_trigger(99)");
}

#[test]
fn a_removed_number_is_not_used_again() {
    let (mut lua, _reader) = with_script(
        r#"
        local first = blight:add_trigger("a", {}, function () blight:output("first") end)
        blight:remove_trigger(first)
        local second = blight:add_trigger("a", {}, function () blight:output("second") end)
        blight:remove_trigger(first)
        blight:output(second - first)
        "#,
    );
    let mut line = Line::from("a");
    assert_eq!(lua.check_for_trigger_match(&mut line), Ok(()));
    assert_eq!(output(&mut lua), ["1", "second"]);
}

#[test]
fn prompt_triggers_can_be_turned_off() {
    let (mut lua, _reader) = with_script(
        r#"
        local prompt = blight:add_trigger("a", {prompt=true}, function () end)
        blight:enable_trigger(prompt, false)
        "#,
    );
    let mut line = Line::from("a");
    assert_eq!(lua.check_for_prompt_trigger_match(&mut line), Ok(()));
    assert!(!line.flags.matched);
}

#[test]
fn setting_up_leaves_no_other_globals_and_sends_nothing() {
    let (mut lua, reader) = get_lua();
    assert_eq!(reader.try_iter().count(), 0);
    run(
        &mut lua,
        &reader,
        r#"
        local mine = {}
        for name in pairs(_G) do
            if name:sub(1, 2) == "__" then mine[#mine + 1] = name end
        end
        table.sort(mine)
        blight:output(table.concat(mine, " "))
        "#,
    );
    assert_eq!(
        output(&mut lua),
        ["__alias_table __command_binding_table __gag_next_trigger_line __gmcp_listener_table \
         __prompt_trigger_table __timed_function_table __trigger_table"]
    );
}

#[test]
fn an_error_in_a_trigger_is_reported_and_the_line_still_matched() {
    let (mut lua, reader) = with_script(
        r#"
        blight:add_trigger("^a$", {gag=true}, function () error("broken") end)
        blight:add_trigger("^a$", {}, function () blight:output("next") end)
        "#,
    );
    let mut line = Line::from("a");
    assert_eq!(lua.check_for_trigger_match(&mut line), Ok(()));
    assert!(line.flags.matched);
    assert!(errors(&reader)[0].contains("broken"));
    assert_eq!(output(&mut lua), ["next"]);
}

#[test]
fn triggers_and_prompt_triggers_are_apart() {
    let (mut lua, _reader) =
        with_script(r#"blight:add_trigger("a", {prompt=true}, function () end)"#);
    let mut line = Line::from("a");
    assert_eq!(lua.check_for_trigger_match(&mut line), Ok(()));
    assert!(!line.flags.matched);
    assert_eq!(lua.check_for_prompt_trigger_match(&mut line), Ok(()));
    assert!(line.flags.matched);
}

#[test]
fn a_bad_pattern_is_an_error_of_the_script() {
    let (mut lua, reader) = get_lua();
    let script = "blight:add_trigger('(', {}, function () end)";
    assert_eq!(lua.load_script("test.lua", script), Ok(()));
    assert!(errors(&reader).iter().any(|line| line.contains("unclosed group")));
}

#[test]
fn errors_carry_the_name_of_the_script() {
    let (mut lua, reader) = get_lua();
    assert_eq!(lua.load_script("some/path.lua", "error('oh no')"), Ok(()));
    let lines = errors(&reader);
    assert!(lines[0].contains("some/path.lua"));
    assert!(lines[0].contains("oh no"));
    assert_eq!(lua.load_script("test.lua", "this is no script"), Ok(()));
    assert!(errors(&reader)[0].contains("syntax error"));
}

#[test]
fn gmcp_messages_go_to_their_listener() {
    let (mut lua, reader) = with_script(
        r#"
        blight:receive_gmcp("Char.Vitals", function (content)
            blight:output(content)
        end)
        blight:receive_gmcp("Broken", function (content)
            error(content)
        end)
        "#,
    );
    assert_eq!(lua.receive_gmcp("Char.Vitals {\"hp\": 10}"), Ok(()));
    assert_eq!(output(&mut lua), ["{\"hp\": 10}"]);
    assert_eq!(lua.receive_gmcp("Char.Vitals "), Ok(()));
    assert_eq!(output(&mut lua), [""]);
    assert_eq!(lua.receive_gmcp("Char.Name x"), Ok(()));
    assert_eq!(output(&mut lua), Vec::<String>::new());
    assert_eq!(lua.receive_gmcp("Broken pipe"), Ok(()));
    assert!(errors(&reader)[0].contains("pipe"));
}

#[test]
fn callbacks_get_the_address_of_a_connection_once() {
    let script = r#"
        blight:on_connect(function (host, port)
            blight:output(host, port + 1)
        end)
        "#;
    let (mut lua, reader) = with_script(script);
    assert_eq!(lua.on_connect("example.org", 4000), Ok(()));
    assert_eq!(output(&mut lua), ["example.org 4001"]);
    assert_eq!(lua.on_connect("example.org", 5000), Ok(()));
    assert_eq!(output(&mut lua), Vec::<String>::new());
    assert_eq!(lua.reset((80, 24)), Ok(()));
    run(&mut lua, &reader, script);
    assert_eq!(lua.on_connect("example.org", 6000), Ok(()));
    assert_eq!(output(&mut lua), ["example.org 6001"]);
}

#[test]
fn a_connection_without_a_callback_still_counts() {
    let (mut lua, reader) = get_lua();
    assert_eq!(lua.on_connect("example.org", 1), Ok(()));
    run(
        &mut lua,
        &reader,
        "blight:on_connect(function () blight:output('late') end)",
    );
    assert_eq!(lua.on_connect("example.org", 1), Ok(()));
    assert_eq!(output(&mut lua), Vec::<String>::new());
}

#[test]
fn every_disconnection_is_told() {
    let (mut lua, reader) = with_script(
        "blight:on_disconnect(function () blight:output('gone') error('sad') end)",
    );
    for _ in 0..2 {
        assert_eq!(lua.on_disconnect(), Ok(()));
        assert_eq!(output(&mut lua), ["gone"]);
        assert!(errors(&reader)[0].contains("sad"));
    }
    let (mut lua, reader) = get_lua();
    assert_eq!(lua.on_disconnect(), Ok(()));
    assert_eq!(errors(&reader), Vec::<String>::new());
}

#[test]
fn an_error_when_gmcp_is_ready_is_reported() {
    let (mut lua, reader) = with_script("blight:on_gmcp_ready(function () error('no') end)");
    assert_eq!(lua.on_gmcp_ready(), Ok(()));
    assert!(errors(&reader)[0].contains("no"));
    assert_eq!(lua.on_gmcp_ready(), Ok(()));
    assert_eq!(errors(&reader), Vec::<String>::new());
}

#[test]
fn timed_functions_run_until_they_are_removed() {
    let (mut lua, reader) = get_lua();
    let script = format!(
        "{}[7] = function () blight:output('tick') end {}[8] = function () error('bad') end",
        TIMED_FUNCTION_TABLE, TIMED_FUNCTION_TABLE
    );
    run(&mut lua, &reader, &script);
    assert_eq!(lua.run_timed_function(7), Ok(()));
    assert_eq!(lua.run_timed_function(7), Ok(()));
    assert_eq!(output(&mut lua), ["tick", "tick"]);
    assert_eq!(lua.remove_timed_function(7), Ok(()));
    assert!(is_script_fault(lua.run_timed_function(7)));
    assert_eq!(lua.remove_timed_function(7), Ok(()));
    match lua.run_timed_function(8) {
        Err(Fault::Script(message)) => assert!(message.contains("bad")),
        other => panic!("no fault: {:?}", other),
    }
}

#[test]
fn default_bindings_move_the_interface() {
    let (mut lua, _reader) = get_lua();
    assert_eq!(lua.check_bindings("ctrl-p"), Ok(()));
    assert_eq!(
        lua.get_ui_events(),
        Ok(vec![UiEvent { command: "previous_command".to_string() }])
    );
    assert_eq!(lua.check_bindings("no such key"), Ok(()));
    assert_eq!(lua.get_ui_events(), Ok(vec![]));
}

#[test]
fn an_error_in_a_binding_is_a_fault() {
    let (mut lua, _reader) = with_script("blight:bind('f1', function () error('bad') end)");
    match lua.check_bindings("f1") {
        Err(Fault::Script(message)) => assert!(message.contains("bad")),
        other => panic!("no fault: {:?}", other),
    }
}

#[test]
fn a_script_can_break_its_own_state() {
    let (mut lua, reader) = with_script("blight = nil");
    assert!(is_script_fault(lua.get_output_lines()));
    assert!(is_script_fault(lua.get_ui_events()));
    assert!(is_script_fault(lua.set_dimensions((1, 1))));
    let script = r#"
        __alias_table = nil
        __trigger_table = { 1 }
        __timed_function_table = nil
        __gmcp_listener_table = nil
        __command_binding_table = nil
        "#;
    run(&mut lua, &reader, script);
    assert!(is_script_fault(lua.check_for_alias_match(&Line::from("a"))));
    let mut line = Line::from("a");
    assert!(is_script_fault(lua.check_for_trigger_match(&mut line)));
    assert!(!line.flags.matched);
    assert!(is_script_fault(lua.run_timed_function(1)));
    assert!(is_script_fault(lua.remove_timed_function(1)));
    assert!(is_script_fault(lua.receive_gmcp("a b")));
    assert!(is_script_fault(lua.check_bindings("a")));
    assert_eq!(lua.reset((80, 24)), Ok(()));
    assert_eq!(lua.check_for_alias_match(&Line::from("a")), Ok(false));
}

#[test]
fn errors_that_nobody_hears_are_a_fault() {
    let (mut lua, reader) = with_script(
        r#"
        blight:add_alias("a", function () error("x") end)
        blight:add_trigger("a", {}, function () error("x") end)
        blight:on_connect(function () error("x") end)
        blight:receive_gmcp("a", function () error("x") end)
        "#,
    );
    drop(reader);
    assert_eq!(lua.check_for_alias_match(&Line::from("a")), Err(Fault::Closed));
    let mut line = Line::from("a");
    assert_eq!(lua.check_for_trigger_match(&mut line), Err(Fault::Closed));
    assert_eq!(line, Line::from("a"));
    assert_eq!(lua.on_connect("a", 1), Err(Fault::Closed));
    assert_eq!(lua.receive_gmcp("a b"), Err(Fault::Closed));
    assert_eq!(lua.load_script("a", "error('x')"), Err(Fault::Closed));
    assert_eq!(lua.load_script("a", "blight:send('x')"), Err(Fault::Closed));
    assert_eq!(lua.load_script("a", "x = 1"), Ok(()));
}

#[test]
fn reset_forgets_what_scripts_did() {
    let (mut lua, reader) =
        with_script("mine = 1 blight:add_alias('a', function () end) blight:output('x')");
    assert_eq!(lua.reset((10, 20)), Ok(()));
    assert_eq!(lua.check_for_alias_match(&Line::from("a")), Ok(false));
    assert_eq!(output(&mut lua), Vec::<String>::new());
    run(
        &mut lua,
        &reader,
        "blight:output(tostring(mine), blight:terminal_dimensions())",
    );
    assert_eq!(output(&mut lua), ["nil 10 20"]);
    assert_eq!(lua.load_script("t", "blight:reset()"), Ok(()));
    assert_eq!(reader.try_recv(), Ok(Event::ResetScript));
}

#[test]
fn what_the_user_types_can_be_run() {
    let (mut lua, reader) = get_lua();
    let typed = Line::from("/lua blight:output('typed')");
    assert_eq!(lua.check_for_alias_match(&typed), Ok(true));
    assert_eq!(output(&mut lua), ["typed"]);
    assert_eq!(lua.check_for_alias_match(&Line::from("/lua +")), Ok(true));
    assert!(!errors(&reader).is_empty());
}

#[test]
fn scripts_can_use_json() {
    let (mut lua, _reader) = with_script(
        r#"
        local value = json.decode('{"a": [1, 2.5, true, null, "x\\n\\u00e5"], "b": {}}')
        blight:output(#value.a[5], value.a[2], tostring(value.a[3]), tostring(value.a[4]))
        blight:output(json.encode({ 1, "two\n", false }))
        blight:output(json.encode({ key = "v" }))
        "#,
    );
    assert_eq!(
        output(&mut lua),
        ["4 2.5 true nil", "[1,\"two\\n\",false]", "{\"key\":\"v\"}"]
    );
}

#[test]
fn copies_of_the_object_share_the_channel() {
    let (writer, reader) = channel();
    let mut blight = BlightMud::new(writer);
    blight.set_screen_dimensions((3, 4));
    blight.output(vec!["a".to_string(), "b".to_string()]);
    let mut copy = blight.clone();
    assert_eq!(copy.terminal_dimensions(), (3, 4));
    assert_eq!(copy.get_output_lines(), [Line::from("a b")]);
    assert_eq!(copy.get_output_lines(), []);
    assert_eq!(blight.get_output_lines(), [Line::from("a b")]);
    assert_eq!(copy.connect("h".to_string(), 1), Ok(()));
    assert!(reader.try_recv().is_ok());
    drop(reader);
    assert!(blight.stop_log().is_err());
}

#[test]
fn scripts_are_told_when_nobody_takes_an_event() {
    assert_eq!(delivery(true), Ok(()));
    assert_eq!(delivery(false), Err(NOBODY_LISTENS.to_string()));

    let (writer, reader) = channel();
    let mut blight = BlightMud::new(writer);
    assert_eq!(blight.send_gmcp("Core.Hello".to_string()), Ok(()));
    assert_eq!(reader.try_recv(), Ok(Event::GMCPSend("Core.Hello".to_string())));
    drop(reader);
    let refused = Err("the client takes no more events".to_string());
    assert_eq!(blight.connect("h".to_string(), 1), refused);
    assert_eq!(blight.send("x".to_string()), refused);
    assert_eq!(blight.send_bytes(vec![1]), refused);
    assert_eq!(blight.send_gmcp("x".to_string()), refused);
    assert_eq!(blight.load("x".to_string()), refused);
    assert_eq!(blight.reset(), refused);
    assert_eq!(blight.start_log("x".to_string()), refused);
    assert_eq!(blight.stop_log(), refused);
}
