use blightmud::event::{Connection, Event};
use blightmud::line::Line;
use blightmud::lua::lua_script::LuaScript;
use blightmud::{PROJECT_NAME, VERSION};
use rlua::Result as LuaResult;
use std::sync::mpsc::{channel, Receiver, Sender};

fn test_trigger(line: &str, lua: &mut LuaScript) -> bool {
    let mut line = Line::from(line);
    lua.check_for_trigger_match(&mut line).unwrap();
    line.flags.matched
}

fn test_prompt_trigger(line: &str, lua: &mut LuaScript) -> bool {
    let mut line = Line::from(line);
    lua.check_for_prompt_trigger_match(&mut line).unwrap();
    line.flags.matched
}

fn get_lua() -> (LuaScript, Receiver<Event>) {
    let (writer, reader): (Sender<Event>, Receiver<Event>) = channel();
    (LuaScript::new(writer, (80, 80)).unwrap(), reader)
}

#[test]
fn test_lua_trigger() {
    let create_trigger_lua = r#"
        blight:add_trigger("^test$", {gag=true}, function () end)
        "#;

    let mut lua = get_lua().0;
    lua.state.context(|ctx| {
        ctx.load(create_trigger_lua).exec().unwrap();
    });

    assert!(test_trigger("test", &mut lua));
    assert!(!test_trigger("test test", &mut lua));
}

#[test]
fn test_lua_prompt_trigger() {
    let create_prompt_trigger_lua = r#"
        blight:add_trigger("^test$", {prompt=true, gag=true}, function () end)
        "#;

    let mut lua = get_lua().0;
    lua.state.context(|ctx| {
        ctx.load(create_prompt_trigger_lua).exec().unwrap();
    });

    assert!(test_prompt_trigger("test", &mut lua));
    assert!(!test_prompt_trigger("test test", &mut lua));
}

#[test]
fn test_lua_raw_trigger() {
    let create_trigger_lua = r#"
        blight:add_trigger("^\\x1b\\[31mtest\\x1b\\[0m$", {raw=true}, function () end)
        "#;

    let (mut lua, _reader) = get_lua();
    lua.state.context(|ctx| {
        ctx.load(create_trigger_lua).exec().unwrap();
    });

    assert!(test_trigger("\x1b[31mtest\x1b[0m", &mut lua));
    assert!(!test_trigger("test", &mut lua));
}

#[test]
fn test_remove_trigger() {
    let mut lua = get_lua().0;
    let (ttrig, ptrig) = lua
        .state
        .context(|ctx| -> LuaResult<(u32, u32)> {
            let ttrig: u32 = ctx
                .load(r#"return blight:add_trigger("^test$", {}, function () end)"#)
                .call(())
                .unwrap();
            let ptrig: u32 = ctx
                .load(r#"return blight:add_trigger("^test$", {prompt=true}, function () end)"#)
                .call(())
                .unwrap();
            Ok((ttrig, ptrig))
        })
        .unwrap();

    assert!(test_trigger("test", &mut lua));
    assert!(test_prompt_trigger("test", &mut lua));

    lua.state.context(|ctx| {
        ctx.load(&format!("blight:remove_trigger({})", ttrig))
            .exec()
            .unwrap();
    });

    assert!(test_prompt_trigger("test", &mut lua));
    assert!(!test_trigger("test", &mut lua));

    lua.state.context(|ctx| {
        ctx.load(&format!("blight:remove_trigger({})", ptrig))
            .exec()
            .unwrap();
    });

    assert!(!test_trigger("test", &mut lua));
    assert!(!test_prompt_trigger("test", &mut lua));
}

#[test]
fn test_lua_alias() {
    let create_alias_lua = r#"
        blight:add_alias("^test$", function () end)
        "#;

    let mut lua = get_lua().0;
    lua.state.context(|ctx| {
        ctx.load(create_alias_lua).exec().unwrap();
    });

    assert!(lua.check_for_alias_match(&Line::from("test")).unwrap());
    assert!(!lua.check_for_alias_match(&Line::from(" test")).unwrap());
}

#[test]
fn test_lua_remove_alias() {
    let create_alias_lua = r#"
        return blight:add_alias("^test$", function () end)
        "#;

    let mut lua = get_lua().0;
    let index: i32 = lua
        .state
        .context(|ctx| ctx.load(create_alias_lua).call(()))
        .unwrap();

    assert!(lua.check_for_alias_match(&Line::from("test")).unwrap());

    let delete_alias = format!("blight:remove_alias({})", index);
    lua.state.context(|ctx| {
        ctx.load(&delete_alias).exec().unwrap();
    });
    assert!(!lua.check_for_alias_match(&Line::from("test")).unwrap());
}

#[test]
fn test_dimensions() {
    let mut lua = get_lua().0;
    let dim: (u16, u16) = lua
        .state
        .context(|ctx| ctx.load("return blight:terminal_dimensions()").call(()))
        .unwrap();
    assert_eq!(dim, (80, 80));
    lua.set_dimensions((70, 70)).unwrap();
    let dim: (u16, u16) = lua
        .state
        .context(|ctx| ctx.load("return blight:terminal_dimensions()").call(()))
        .unwrap();
    assert_eq!(dim, (70, 70));
}

#[test]
fn test_send_gmcp() {
    let send_gmcp_lua = r#"
        blight:send_gmcp("Core.Hello")
        "#;

    let (lua, reader) = get_lua();
    lua.state.context(|ctx| {
        ctx.load(send_gmcp_lua).exec().unwrap();
    });

    assert_eq!(reader.recv(), Ok(Event::GMCPSend("Core.Hello".to_string())));
}

#[test]
fn test_version() {
    let lua = get_lua().0;
    let (name, version): (String, String) = lua
        .state
        .context(|ctx| -> LuaResult<(String, String)> {
            ctx.load("return blight:version()")
                .call::<(), (String, String)>(())
        })
        .unwrap();
    assert_eq!(version, VERSION);
    assert_eq!(name, PROJECT_NAME);
}

fn assert_event(lua_code: &str, event: Event) {
    let (lua, reader) = get_lua();
    lua.state.context(|ctx| {
        ctx.load(lua_code).exec().unwrap();
    });

    assert_eq!(reader.recv(), Ok(event));
}

#[test]
fn test_connect() {
    assert_event(
        "blight:connect(\"hostname\", 99)",
        Event::Connect(Connection {
            host: "hostname".to_string(),
            port: 99,
        }),
    );
}

#[test]
fn test_output() {
    let (mut lua, _reader) = get_lua();
    lua.state.context(|ctx| {
        ctx.load("blight:output(\"test\", \"test\")")
            .exec()
            .unwrap();
    });
    assert_eq!(lua.get_output_lines().unwrap(), vec![Line::from("test test")]);
}

#[test]
fn test_load() {
    assert_event(
        "blight:load(\"/some/fancy/path\")",
        Event::LoadScript("/some/fancy/path".to_string()),
    );
}

#[test]
fn test_reset() {
    assert_event("blight:reset()", Event::ResetScript);
}

#[test]
fn test_sending() {
    assert_event(
        "blight:send(\"message\")",
        Event::ServerInput(Line::from("message")),
    );
}

#[test]
fn test_send_bytes() {
    assert_event(
        "blight:send_bytes({ 0xff, 0xf1 })",
        Event::ServerInput(Line::from(&vec![0xff, 0xf1])),
    );
}

#[test]
fn test_logging() {
    let (lua, reader) = get_lua();
    lua.state.context(|ctx| {
        ctx.load("blight:start_log(\"testworld\")").exec().unwrap();
        ctx.load("blight:stop_log()").exec().unwrap();
    });

    assert_eq!(
        reader.recv(),
        Ok(Event::StartLogging("testworld".to_string(), true))
    );
    assert_eq!(reader.recv(), Ok(Event::StopLogging));
}

#[test]
fn test_conditional_gag() {
    let trigger = r#"
        blight:add_trigger("^Health (\\d+)$", {}, function (matches)
            if matches[2] == "100" then
                blight:gag()
            end
        end)
        "#;

    let (mut lua, _reader) = get_lua();
    lua.state.context(|ctx| {
        ctx.load(trigger).exec().unwrap();
    });

    let mut line = Line::from("Health 100");
    lua.check_for_trigger_match(&mut line).unwrap();
    assert!(line.flags.gag);

    let mut line = Line::from("Health 10");
    lua.check_for_trigger_match(&mut line).unwrap();
    assert!(!line.flags.gag);
}

fn check_color(lua: &mut LuaScript, output: &str, result: &str) {
    lua.state.context(|ctx| {
        ctx.load(&format!("blight:output({})", output))
            .exec()
            .unwrap();
    });
    assert_eq!(lua.get_output_lines().unwrap()[0], Line::from(result));
}

#[test]
fn test_color_output() {
    let (mut lua, _reader) = get_lua();
    check_color(
        &mut lua,
        "C_RED .. \"COLOR\" .. C_RESET",
        "\x1b[31mCOLOR\x1b[0m",
    );
    check_color(
        &mut lua,
        "C_GREEN .. \"COLOR\" .. C_RESET",
        "\x1b[32mCOLOR\x1b[0m",
    );
    check_color(
        &mut lua,
        "C_YELLOW .. \"COLOR\" .. C_RESET",
        "\x1b[33mCOLOR\x1b[0m",
    );
    check_color(
        &mut lua,
        "C_BLUE .. \"COLOR\" .. C_RESET",
        "\x1b[34mCOLOR\x1b[0m",
    );
    check_color(
        &mut lua,
        "C_MAGENTA .. \"COLOR\" .. C_RESET",
        "\x1b[35mCOLOR\x1b[0m",
    );
    check_color(
        &mut lua,
        "C_CYAN .. \"COLOR\" .. C_RESET",
        "\x1b[36mCOLOR\x1b[0m",
    );
    check_color(
        &mut lua,
        "C_WHITE .. \"COLOR\" .. C_RESET",
        "\x1b[37mCOLOR\x1b[0m",
    );
}

#[test]
fn test_bindings() {
    let lua_code = r#"
        blight:bind("ctrl-a", function ()
            blight:output("ctrl-a")
        end)
        blight:bind("f1", function ()
            blight:output("f1")
        end)
        blight:bind("alt-1", function ()
            blight:output("alt-1")
        end)
        "#;

    let (mut lua, _reader) = get_lua();
    lua.state.context(|ctx| {
        ctx.load(lua_code).exec().unwrap();
    });

    lua.check_bindings("ctrl-a").unwrap();
    assert_eq!(lua.get_output_lines().unwrap(), [Line::from("ctrl-a")]);
    lua.check_bindings("alt-1").unwrap();
    assert_eq!(lua.get_output_lines().unwrap(), [Line::from("alt-1")]);
    lua.check_bindings("f1").unwrap();
    assert_eq!(lua.get_output_lines().unwrap(), [Line::from("f1")]);
    lua.check_bindings("ctrl-0").unwrap();
    assert_eq!(lua.get_output_lines().unwrap(), []);
}

#[test]
fn test_on_connect_test() {
    let lua_code = r#"
        blight:on_connect(function ()
            blight:output("connected")
        end)
        "#;

    let (mut lua, _reader) = get_lua();
    lua.state.context(|ctx| {
        ctx.load(lua_code).exec().unwrap();
    });

    lua.on_connect("test", 21).unwrap();
    assert_eq!(lua.get_output_lines().unwrap(), [Line::from("connected")]);
    lua.on_connect("test", 21).unwrap();
    assert_eq!(lua.get_output_lines().unwrap(), []);
    lua.reset((100, 100)).unwrap();
    lua.state.context(|ctx| {
        ctx.load(lua_code).exec().unwrap();
    });
    lua.on_connect("test", 21).unwrap();
    assert_eq!(lua.get_output_lines().unwrap(), [Line::from("connected")]);
}

#[test]
fn test_on_gmcp_ready_test() {
    let lua_code = r#"
        blight:on_gmcp_ready(function ()
            blight:output("gmcp")
        end)
        "#;

    let (mut lua, _reader) = get_lua();
    lua.state.context(|ctx| {
        ctx.load(lua_code).exec().unwrap();
    });

    lua.on_gmcp_ready().unwrap();
    assert_eq!(lua.get_output_lines().unwrap(), [Line::from("gmcp")]);
    lua.on_gmcp_ready().unwrap();
    assert_eq!(lua.get_output_lines().unwrap(), []);
    lua.reset((100, 100)).unwrap();
    lua.state.context(|ctx| {
        ctx.load(lua_code).exec().unwrap();
    });
    lua.on_gmcp_ready().unwrap();
    assert_eq!(lua.get_output_lines().unwrap(), [Line::from("gmcp")]);
}
