//! The script state of the client.

use super::blight::{BlightMud, BlightView, UiEvent};
use super::constants::{
    ALIAS_TABLE, COMMAND_BINDING_TABLE, GAG_NEXT_TRIGGER_LINE, GMCP_LISTENER_TABLE, JSON_MODULE,
    ON_CONNCTION_CALLBACK, ON_DISCONNECT_CALLBACK, ON_GMCP_READY_CALLBACK, PROMPT_TRIGGER_TABLE,
    TIMED_FUNCTION_TABLE, TRIGGER_TABLE,
};
use super::effects::{
    after_ops, alias_called, alias_ops, alias_reports, alias_visited, aliases_checked,
    binding_checked, call_ops, connection_told, dimensions_set, exchange_ops, gmcp_readiness_told,
    gmcp_received, hook_called, output_taken, reported, result_of, setup_failed, setup_ops,
    setup_refused, state_reset, timed_function_removed, timed_function_run, trigger_flags,
    trigger_ops, trigger_reports, trigger_visited, triggers_checked, ui_events_taken, AliasStep,
    ScriptView, TriggerStep,
};
use super::interpreter::{
    alias_outcome, call, call_alias, call_trigger, call_with_address, call_with_text,
    clear_numbered, entry_outcome, exec, exec_named, find_global, find_named, find_numbered,
    get_blight, get_flag, load_module, lua_history, new_interpreter, new_table, outcome, read_alias,
    read_trigger, set_blight, set_flag, table_keys, trigger_outcome, LuaArgs, LuaOp,
};
use super::resources::{BINDINGS_SCRIPT, DEFAULTS_SCRIPT, JSON_SCRIPT, LUA_COMMAND_SCRIPT};
use crate::event::{
    another_handle, error_report, event_channel, outbox, output_stack_trace, Event, Fault, Outbox,
};
use crate::line::{Line, LineView};
use crate::text::split_at_first;
use rlua::{Lua, RegistryKey};
use std::sync::mpsc::Sender;
use vstd::prelude::*;

verus! {

/// A script state, and what the client has told it.
pub struct LuaScript {
    /// The interpreter, for code that has business with it beside the client's.
    pub state: Lua,
    writer: Sender<Event>,
    on_connect_triggered: bool,
    on_gmcp_ready_triggered: bool,
}

impl View for LuaScript {
    type V = ScriptView;

    closed spec fn view(&self) -> ScriptView {
        ScriptView {
            history: lua_history(self.state),
            outbox: outbox(self.writer),
            channel: event_channel(self.writer),
            connected: self.on_connect_triggered,
            gmcp_ready: self.on_gmcp_ready_triggered,
        }
    }
}

/// Sets up a script state for a screen of the given width and height.
fn create_default_lua_state(writer: Sender<Event>, dimensions: (u16, u16)) -> (res: Result<
    Lua,
    Fault,
>)
    requires
        outbox(writer) == Outbox::fresh(),
    ensures
        match res {
            Ok(lua) => lua_history(lua) == setup_ops(event_channel(writer), dimensions),
            Err(fault) => exists|lua: Lua| #[trigger]
                setup_failed(event_channel(writer), dimensions, lua, fault),
        },
{
    let mut lua = new_interpreter();
    match set_up(&mut lua, writer, dimensions) {
        Ok(()) => Ok(lua),
        Err(message) => {
            let fault = Fault::Script(message);
            assert(setup_failed(event_channel(writer), dimensions, lua, fault));
            Err(fault)
        },
    }
}

/// Makes what every script state has, up to the first thing that fails.
fn set_up(lua: &mut Lua, writer: Sender<Event>, dimensions: (u16, u16)) -> (res: Result<
    (),
    String,
>)
    requires
        lua_history(*old(lua)) == Seq::<LuaOp>::empty(),
        outbox(writer) == Outbox::fresh(),
    ensures
        match res {
            Ok(()) => lua_history(*final(lua)) == setup_ops(event_channel(writer), dimensions),
            Err(message) => setup_refused(
                event_channel(writer),
                dimensions,
                lua_history(*final(lua)),
                message@,
            ),
        },
{
    let ghost ops = setup_ops(event_channel(writer), dimensions);
    let mut blight = BlightMud::new(writer);
    blight.set_screen_dimensions(dimensions);
    assert(lua_history(*lua) =~= ops.take(0));
    set_blight(lua, blight)?;

    assert(lua_history(*lua) =~= ops.take(1));
    new_table(lua, ALIAS_TABLE)?;
    assert(lua_history(*lua) =~= ops.take(2));
    new_table(lua, TRIGGER_TABLE)?;
    assert(lua_history(*lua) =~= ops.take(3));
    new_table(lua, PROMPT_TRIGGER_TABLE)?;
    assert(lua_history(*lua) =~= ops.take(4));
    new_table(lua, GMCP_LISTENER_TABLE)?;
    assert(lua_history(*lua) =~= ops.take(5));
    new_table(lua, TIMED_FUNCTION_TABLE)?;
    assert(lua_history(*lua) =~= ops.take(6));
    new_table(lua, COMMAND_BINDING_TABLE)?;

    assert(lua_history(*lua) =~= ops.take(7));
    set_flag(lua, GAG_NEXT_TRIGGER_LINE, false)?;

    assert(lua_history(*lua) =~= ops.take(8));
    load_module(lua, JSON_MODULE, JSON_SCRIPT)?;
    assert(lua_history(*lua) =~= ops.take(9));
    exec(lua, BINDINGS_SCRIPT)?;
    assert(lua_history(*lua) =~= ops.take(10));
    exec(lua, DEFAULTS_SCRIPT)?;
    assert(lua_history(*lua) =~= ops.take(11));
    exec(lua, LUA_COMMAND_SCRIPT)?;

    assert(lua_history(*lua) =~= ops);
    Ok(())
}

impl LuaScript {
    /// A script state that sends events through `main_writer`, for a screen of the
    /// given width and height.
    pub fn new(main_writer: Sender<Event>, dimensions: (u16, u16)) -> (res: Result<
        LuaScript,
        Fault,
    >)
        ensures
            match res {
                Ok(script) => script@ == (ScriptView {
                    history: setup_ops(event_channel(main_writer), dimensions),
                    outbox: outbox(main_writer),
                    channel: event_channel(main_writer),
                    connected: false,
                    gmcp_ready: false,
                }),
                Err(fault) => exists|lua: Lua| #[trigger]
                    setup_failed(event_channel(main_writer), dimensions, lua, fault),
            },
    {
        match create_default_lua_state(another_handle(&main_writer), dimensions) {
            Ok(state) => Ok(
                LuaScript {
                    state,
                    writer: main_writer,
                    on_connect_triggered: false,
                    on_gmcp_ready_triggered: false,
                },
            ),
            Err(fault) => Err(fault),
        }
    }

    /// Forgets all that scripts have set up.
    pub fn reset(&mut self, dimensions: (u16, u16)) -> (res: Result<(), Fault>)
        ensures
            state_reset(old(self)@, dimensions, final(self)@, res),
    {
        self.on_connect_triggered = false;
        self.on_gmcp_ready_triggered = false;
        match create_default_lua_state(another_handle(&self.writer), dimensions) {
            Ok(state) => {
                self.state = state;
                Ok(())
            },
            Err(fault) => Err(fault),
        }
    }

    /// Hands out the lines that scripts want shown, once.
    pub fn get_output_lines(&mut self) -> (res: Result<Vec<Line>, Fault>)
        ensures
            exists|got: Result<BlightView, Seq<char>>, set: Result<(), Seq<char>>| #[trigger]
                output_taken(old(self)@, got, set, final(self)@, res),
    {
        match get_blight(&mut self.state) {
            Ok(mut blight) => {
                let ghost got = Ok::<BlightView, Seq<char>>(blight@);
                let lines = blight.get_output_lines();
                let put = set_blight(&mut self.state, blight);
                let ghost set = outcome(put);
                assert(self@.history =~= old(self)@.history + exchange_ops(got, blight@, set));
                let res = match put {
                    Ok(()) => Ok(lines),
                    Err(message) => Err(Fault::Script(message)),
                };
                assert(output_taken(old(self)@, got, set, self@, res));
                res
            },
            Err(message) => {
                let ghost got = Err::<BlightView, Seq<char>>(message@);
                let res = Err(Fault::Script(message));
                proof {
                    let put = BlightView { output_lines: Seq::empty(), ..got->Ok_0 };
                    assert(self@.history =~= old(self)@.history + exchange_ops(got, put, Ok(())));
                    assert(output_taken(old(self)@, got, Ok(()), self@, res));
                }
                res
            },
        }
    }

    /// Hands out what scripts want the user interface to do, once.
    pub fn get_ui_events(&mut self) -> (res: Result<Vec<UiEvent>, Fault>)
        ensures
            exists|got: Result<BlightView, Seq<char>>, set: Result<(), Seq<char>>| #[trigger]
                ui_events_taken(old(self)@, got, set, final(self)@, res),
    {
        match get_blight(&mut self.state) {
            Ok(mut blight) => {
                let ghost got = Ok::<BlightView, Seq<char>>(blight@);
                let events = blight.get_ui_events();
                let put = set_blight(&mut self.state, blight);
                let ghost set = outcome(put);
                assert(self@.history =~= old(self)@.history + exchange_ops(got, blight@, set));
                let res = match put {
                    Ok(()) => Ok(events),
                    Err(message) => Err(Fault::Script(message)),
                };
                assert(ui_events_taken(old(self)@, got, set, self@, res));
                res
            },
            Err(message) => {
                let ghost got = Err::<BlightView, Seq<char>>(message@);
                let res = Err(Fault::Script(message));
                proof {
                    let put = BlightView { ui_events: Seq::empty(), ..got->Ok_0 };
                    assert(self@.history =~= old(self)@.history + exchange_ops(got, put, Ok(())));
                    assert(ui_events_taken(old(self)@, got, Ok(()), self@, res));
                }
                res
            },
        }
    }

    /// Tells scripts how large the screen is.
    pub fn set_dimensions(&mut self, dim: (u16, u16)) -> (res: Result<(), Fault>)
        ensures
            exists|got: Result<BlightView, Seq<char>>, set: Result<(), Seq<char>>| #[trigger]
                dimensions_set(old(self)@, dim, got, set, final(self)@, res),
    {
        match get_blight(&mut self.state) {
            Ok(mut blight) => {
                let ghost got = Ok::<BlightView, Seq<char>>(blight@);
                blight.set_screen_dimensions(dim);
                let put = set_blight(&mut self.state, blight);
                let ghost set = outcome(put);
                assert(self@.history =~= old(self)@.history + exchange_ops(got, blight@, set));
                let res = fault_of(put);
                assert(dimensions_set(old(self)@, dim, got, set, self@, res));
                res
            },
            Err(message) => {
                let ghost got = Err::<BlightView, Seq<char>>(message@);
                let res = Err(Fault::Script(message));
                proof {
                    let put = BlightView { screen_dimensions: dim, ..got->Ok_0 };
                    assert(self@.history =~= old(self)@.history + exchange_ops(got, put, Ok(())));
                    assert(dimensions_set(old(self)@, dim, got, Ok(()), self@, res));
                }
                res
            },
        }
    }
}

impl LuaScript {
    /// Calls the function that runs after a time and has the given number.
    pub fn run_timed_function(&mut self, id: u32) -> (res: Result<(), Fault>)
        ensures
            exists|found: Result<RegistryKey, Seq<char>>, called: Result<(), Seq<char>>|
                #[trigger]
                timed_function_run(old(self)@, id, found, called, final(self)@, res),
    {
        let lookup = find_numbered(&mut self.state, TIMED_FUNCTION_TABLE, id);
        let ghost found = outcome(lookup);
        let ghost find = LuaOp::FindNumbered { table: TIMED_FUNCTION_TABLE@, id, outcome: found };
        match lookup {
            Ok(function) => {
                let run = call(&mut self.state, &function);
                let ghost called = outcome(run);
                assert(self@.history =~= old(self)@.history + call_ops(
                    find,
                    Some(function),
                    LuaArgs::Nothing,
                    called,
                ));
                let res = fault_of(run);
                assert(timed_function_run(old(self)@, id, found, called, self@, res));
                res
            },
            Err(message) => {
                let res = Err(Fault::Script(message));
                assert(self@.history =~= old(self)@.history + seq![find]);
                assert(timed_function_run(old(self)@, id, found, Ok(()), self@, res));
                res
            },
        }
    }

    /// Removes the function that runs after a time and has the given number.
    pub fn remove_timed_function(&mut self, id: u32) -> (res: Result<(), Fault>)
        ensures
            exists|cleared: Result<(), Seq<char>>| #[trigger]
                timed_function_removed(old(self)@, id, cleared, final(self)@, res),
    {
        let clear = clear_numbered(&mut self.state, TIMED_FUNCTION_TABLE, id);
        let ghost cleared = outcome(clear);
        let ghost op = LuaOp::ClearNumbered { table: TIMED_FUNCTION_TABLE@, id, outcome: cleared };
        assert(self@.history =~= old(self)@.history + seq![op]);
        let res = fault_of(clear);
        assert(timed_function_removed(old(self)@, id, cleared, self@, res));
        res
    }

    /// Sends the report of an error in a script.
    fn report(&mut self, message: String) -> (res: Result<(), Fault>)
        ensures
            reported(old(self)@, Seq::empty(), Err(message@), final(self)@, res),
    {
        assert(old(self)@.history + Seq::<LuaOp>::empty() =~= old(self)@.history);
        if output_stack_trace(&mut self.writer, message.as_str()) {
            Ok(())
        } else {
            Err(Fault::Closed)
        }
    }

    /// Passes a GMCP message on to the script that listens for its kind. The kind
    /// is what goes before the first blank.
    pub fn receive_gmcp(&mut self, data: &str) -> (res: Result<(), Fault>)
        requires
            data@.contains(' '),
        ensures
            exists|
                kind: Seq<char>,
                content: Seq<char>,
                found: Result<Option<RegistryKey>, Seq<char>>,
                called: Result<(), Seq<char>>,
            |
                {
                    &&& data@ == kind.push(' ') + content
                    &&& !kind.contains(' ')
                    &&& #[trigger] gmcp_received(
                        old(self)@,
                        kind,
                        content,
                        found,
                        called,
                        final(self)@,
                        res,
                    )
                },
    {
        let (kind, content) = match split_at_first(data, ' ') {
            Some(halves) => halves,
            None => (String::new(), String::new()),
        };
        let lookup = find_named(&mut self.state, GMCP_LISTENER_TABLE, kind.as_str());
        let ghost found = outcome(lookup);
        let ghost find = LuaOp::FindNamed {
            table: GMCP_LISTENER_TABLE@,
            name: kind@,
            outcome: found,
        };
        let ghost text = content@;
        match lookup {
            Ok(Some(function)) => {
                let run = call_with_text(&mut self.state, &function, content);
                let ghost called = outcome(run);
                let ghost ops = call_ops(find, Some(function), LuaArgs::Text(text), called);
                assert(self@.history =~= old(self)@.history + ops);
                let res = match run {
                    Ok(()) => Ok(()),
                    Err(message) => self.report(message),
                };
                assert(self@.history =~= old(self)@.history + ops);
                assert(gmcp_received(old(self)@, kind@, text, found, called, self@, res));
                res
            },
            Ok(None) => {
                assert(self@.history =~= old(self)@.history + seq![find]);
                assert(gmcp_received(
                    old(self)@,
                    kind@,
                    text,
                    found,
                    Ok(()),
                    self@,
                    Ok::<(), Fault>(()),
                ));
                Ok(())
            },
            Err(message) => {
                let res = Err(Fault::Script(message));
                assert(self@.history =~= old(self)@.history + seq![find]);
                assert(gmcp_received(old(self)@, kind@, text, found, Ok(()), self@, res));
                res
            },
        }
    }

    /// Runs the script `content` under the name `path`, and reports an error that
    /// it ends in.
    pub fn load_script(&mut self, path: &str, content: &str) -> (res: Result<(), Fault>)
        ensures
            exists|run: Result<(), Seq<char>>| #[trigger]
                reported(
                    old(self)@,
                    seq![LuaOp::ExecNamed { name: path@, source: content@, outcome: run }],
                    run,
                    final(self)@,
                    res,
                ),
    {
        let run = exec_named(&mut self.state, path, content);
        let ghost ran = outcome(run);
        let ghost ops = seq![LuaOp::ExecNamed { name: path@, source: content@, outcome: ran }];
        assert(self@.history =~= old(self)@.history + ops);
        let res = match run {
            Ok(()) => Ok(()),
            Err(message) => self.report(message),
        };
        assert(self@.history =~= old(self)@.history + ops);
        assert(reported(old(self)@, ops, ran, self@, res));
        res
    }

    /// Tells scripts of a connection, unless they have been told of one since the
    /// state was set up.
    pub fn on_connect(&mut self, host: &str, port: u16) -> (res: Result<(), Fault>)
        ensures
            connection_told(old(self)@, host@, port, final(self)@, res),
    {
        if self.on_connect_triggered {
            return Ok(());
        }
        self.on_connect_triggered = true;
        let ghost before = self@;
        let ghost args = LuaArgs::Address(host@, port);
        let callback = find_global(&mut self.state, ON_CONNCTION_CALLBACK);
        let ghost find = LuaOp::FindGlobal { name: ON_CONNCTION_CALLBACK@, found: callback };
        match callback {
            Some(function) => {
                let run = call_with_address(&mut self.state, &function, host, port);
                let ghost called = outcome(run);
                let ghost ops = call_ops(find, callback, args, called);
                assert(self@.history =~= before.history + ops);
                let res = match run {
                    Ok(()) => Ok(()),
                    Err(message) => self.report(message),
                };
                assert(self@.history =~= before.history + ops);
                assert(hook_called(
                    before,
                    ON_CONNCTION_CALLBACK@,
                    args,
                    callback,
                    called,
                    self@,
                    res,
                ));
                res
            },
            None => {
                assert(self@.history =~= before.history + seq![find]);
                assert(hook_called(
                    before,
                    ON_CONNCTION_CALLBACK@,
                    args,
                    callback,
                    Ok(()),
                    self@,
                    Ok::<(), Fault>(()),
                ));
                Ok(())
            },
        }
    }

    /// Calls the function in a global, if there is one, and reports an error that
    /// it ends in.
    fn call_hook(&mut self, name: &str) -> (res: Result<(), Fault>)
        ensures
            exists|found: Option<RegistryKey>, called: Result<(), Seq<char>>| #[trigger]
                hook_called(
                    old(self)@,
                    name@,
                    LuaArgs::Nothing,
                    found,
                    called,
                    final(self)@,
                    res,
                ),
    {
        let ghost before = self@;
        let callback = find_global(&mut self.state, name);
        let ghost find = LuaOp::FindGlobal { name: name@, found: callback };
        match callback {
            Some(function) => {
                let run = call(&mut self.state, &function);
                let ghost called = outcome(run);
                let ghost ops = call_ops(find, callback, LuaArgs::Nothing, called);
                assert(self@.history =~= before.history + ops);
                let res = match run {
                    Ok(()) => Ok(()),
                    Err(message) => self.report(message),
                };
                assert(self@.history =~= before.history + ops);
                assert(hook_called(
                    before,
                    name@,
                    LuaArgs::Nothing,
                    callback,
                    called,
                    self@,
                    res,
                ));
                res
            },
            None => {
                assert(self@.history =~= before.history + seq![find]);
                assert(hook_called(
                    before,
                    name@,
                    LuaArgs::Nothing,
                    callback,
                    Ok(()),
                    self@,
                    Ok::<(), Fault>(()),
                ));
                Ok(())
            },
        }
    }

    /// Tells scripts that the connection is gone.
    pub fn on_disconnect(&mut self) -> (res: Result<(), Fault>)
        ensures
            exists|found: Option<RegistryKey>, called: Result<(), Seq<char>>| #[trigger]
                hook_called(
                    old(self)@,
                    ON_DISCONNECT_CALLBACK@,
                    LuaArgs::Nothing,
                    found,
                    called,
                    final(self)@,
                    res,
                ),
    {
        self.call_hook(ON_DISCONNECT_CALLBACK)
    }

    /// Tells scripts that the server talks GMCP, unless they have been told so
    /// since the state was set up.
    pub fn on_gmcp_ready(&mut self) -> (res: Result<(), Fault>)
        ensures
            gmcp_readiness_told(old(self)@, final(self)@, res),
    {
        if self.on_gmcp_ready_triggered {
            return Ok(());
        }
        self.on_gmcp_ready_triggered = true;
        self.call_hook(ON_GMCP_READY_CALLBACK)
    }

    /// Calls the function that is bound to a key, if there is one.
    pub fn check_bindings(&mut self, cmd: &str) -> (res: Result<(), Fault>)
        ensures
            exists|found: Result<Option<RegistryKey>, Seq<char>>, called: Result<(), Seq<char>>|
                #[trigger]
                binding_checked(old(self)@, cmd@, found, called, final(self)@, res),
    {
        let lookup = find_named(&mut self.state, COMMAND_BINDING_TABLE, cmd);
        let ghost found = outcome(lookup);
        let ghost find = LuaOp::FindNamed {
            table: COMMAND_BINDING_TABLE@,
            name: cmd@,
            outcome: found,
        };
        match lookup {
            Ok(Some(function)) => {
                let run = call(&mut self.state, &function);
                let ghost called = outcome(run);
                assert(self@.history =~= old(self)@.history + call_ops(
                    find,
                    Some(function),
                    LuaArgs::Nothing,
                    called,
                ));
                let res = fault_of(run);
                assert(binding_checked(old(self)@, cmd@, found, called, self@, res));
                res
            },
            Ok(None) => {
                assert(self@.history =~= old(self)@.history + seq![find]);
                assert(binding_checked(
                    old(self)@,
                    cmd@,
                    found,
                    Ok(()),
                    self@,
                    Ok::<(), Fault>(()),
                ));
                Ok(())
            },
            Err(message) => {
                let res = Err(Fault::Script(message));
                assert(self@.history =~= old(self)@.history + seq![find]);
                assert(binding_checked(old(self)@, cmd@, found, Ok(()), self@, res));
                res
            },
        }
    }
}

impl LuaScript {
    /// Calls the alias under a key if what the user typed matches it, and tells
    /// whether it did.
    fn visit_alias(&mut self, table: &RegistryKey, key: &RegistryKey, input: &Line) -> (res: Result<
        bool,
        Fault,
    >)
        ensures
            exists|step: AliasStep| #[trigger]
                alias_visited(old(self)@, *table, *key, input@, step, final(self)@, res),
    {
        let ghost before = self@;
        let read = read_alias(&mut self.state, table, key);
        let ghost mut step = AliasStep {
            read: alias_outcome(read),
            called: Ok(Ok(())),
            closed: false,
        };
        let ghost looked = LuaOp::ReadAlias { table: *table, key: *key, outcome: step.read };
        proof {
            assert(self@.history =~= before.history + seq![looked]);
            assert(before.outbox.accepting(Seq::empty()).accepting(Seq::empty())
                =~= before.outbox);
        }
        let captures = match read {
            Ok(Some(alias)) => alias.captures(input),
            Ok(None) => None,
            Err(message) => {
                let res = Err(Fault::Script(message));
                assert(alias_visited(before, *table, *key, input@, step, self@, res));
                return res;
            },
        };
        let captures = match captures {
            Some(captures) => captures,
            None => {
                assert(alias_visited(
                    before,
                    *table,
                    *key,
                    input@,
                    step,
                    self@,
                    Ok::<bool, Fault>(false),
                ));
                return Ok(false);
            },
        };
        let called = call_alias(&mut self.state, table, key, captures);
        proof {
            step = AliasStep { called: entry_outcome(called), ..step };
            assert(self@.history =~= before.history + step.ops(*table, *key, input@));
        }
        match called {
            Ok(Ok(())) => {},
            Ok(Err(message)) => {
                let ghost text = message@;
                let sent = self.report(message);
                assert(self@.history =~= before.history + step.ops(*table, *key, input@));
                if let Err(fault) = sent {
                    proof {
                        step = AliasStep { closed: true, ..step };
                        assert(before.outbox.accepting(Seq::empty()) =~= before.outbox);
                        assert(alias_visited(
                            before,
                            *table,
                            *key,
                            input@,
                            step,
                            self@,
                            Err::<bool, Fault>(fault),
                        ));
                    }
                    return Err(fault);
                }
                assert(before.outbox.accepting(Seq::empty()).accepting(error_report(text))
                    =~= self@.outbox);
            },
            Err(message) => {
                let res = Err(Fault::Script(message));
                assert(alias_visited(before, *table, *key, input@, step, self@, res));
                return res;
            },
        }
        assert(alias_visited(before, *table, *key, input@, step, self@, Ok::<bool, Fault>(true)));
        Ok(true)
    }

    /// Calls every enabled alias that matches what the user typed, and tells
    /// whether there was one. What bypasses scripts matches none.
    ///
    /// The aliases are those that are there at the start: one that a callback
    /// removes before its turn is passed over, and one that a callback adds waits
    /// for the next input.
    pub fn check_for_alias_match(&mut self, input: &Line) -> (res: Result<bool, Fault>)
        ensures
            input@.flags.bypass_script ==> {
                &&& final(self)@ == old(self)@
                &&& res == Ok::<bool, Fault>(false)
            },
            !input@.flags.bypass_script ==> exists|
                listed: Result<(RegistryKey, Seq<RegistryKey>), Seq<char>>,
                steps: Seq<AliasStep>,
            | #[trigger] aliases_checked(old(self)@, input@, listed, steps, final(self)@, res),
    {
        if input.flags().bypass_script {
            return Ok(false);
        }
        let ghost before = self@;
        let ghost line = input@;
        let mut response = false;
        let ghost mut steps: Seq<AliasStep> = Seq::empty();
        let (table, keys) = match table_keys(&mut self.state, ALIAS_TABLE) {
            Ok(held) => held,
            Err(message) => {
                let res = Err(Fault::Script(message));
                proof {
                    let listed = Err::<(RegistryKey, Seq<RegistryKey>), Seq<char>>(message@);
                    let list = LuaOp::Keys { name: ALIAS_TABLE@, outcome: listed };
                    assert(self@.history =~= before.history + seq![list]);
                    assert(aliases_checked(before, line, listed, steps, self@, res));
                }
                return res;
            },
        };
        let ghost listed = Ok::<(RegistryKey, Seq<RegistryKey>), Seq<char>>((table, keys@));
        let ghost list = LuaOp::Keys { name: ALIAS_TABLE@, outcome: listed };
        let mut i: usize = 0;
        assert(self@.history =~= before.history + (seq![list] + alias_ops(
            table,
            keys@,
            line,
            steps,
        )));
        assert(self@.outbox =~= before.outbox.accepting(alias_reports(line, steps)));
        while i < keys.len()
            invariant
                i <= keys.len(),
                line == input@,
                before == old(self)@,
                !line.flags.bypass_script,
                listed == Ok::<(RegistryKey, Seq<RegistryKey>), Seq<char>>((table, keys@)),
                list == (LuaOp::Keys { name: ALIAS_TABLE@, outcome: listed }),
                steps.len() == i,
                forall|k: int| 0 <= k < i ==> (#[trigger] steps[k]).fault(line) is None,
                response == alias_called(line, steps),
                self@ == (ScriptView {
                    outbox: before.outbox.accepting(alias_reports(line, steps)),
                    ..after_ops(before, seq![list] + alias_ops(table, keys@, line, steps))
                }),
            decreases keys.len() - i,
        {
            let ghost here = self@;
            let ghost done = steps;
            let visit = self.visit_alias(&table, &keys[i], input);
            proof {
                let step = choose|step: AliasStep| #[trigger]
                    alias_visited(here, table, keys@[i as int], line, step, self@, visit);
                steps = steps.push(step);
                assert(steps.drop_last() =~= done);
                assert(forall|k: int| 0 <= k < i ==> steps[k] == done[k]);
                assert(self@.history =~= before.history + (seq![list] + alias_ops(
                    table,
                    keys@,
                    line,
                    steps,
                )));
                assert(here.outbox.accepting(Seq::empty()) =~= here.outbox);
                assert(before.outbox.accepting(alias_reports(line, steps))
                    =~= here.outbox.accepting(step.report(line)));
            }
            match visit {
                Ok(called) => {
                    proof {
                        if alias_called(line, done) {
                            let k = choose|k: int|
                                0 <= k < done.len() && (#[trigger] done[k]).captures(line) is Some;
                            assert(steps[k].captures(line) is Some);
                        }
                        if called {
                            assert(steps[i as int].captures(line) is Some);
                        }
                    }
                    if called {
                        response = true;
                    }
                },
                Err(fault) => {
                    assert(aliases_checked(
                        before,
                        line,
                        listed,
                        steps,
                        self@,
                        Err::<bool, Fault>(fault),
                    ));
                    return Err(fault);
                },
            }
            i = i + 1;
        }
        assert(aliases_checked(before, line, listed, steps, self@, Ok::<bool, Fault>(response)));
        Ok(response)
    }
}

impl LuaScript {
    /// Calls the trigger under a key if the line matches it, and notes on the line
    /// that it did and whether it is to be shown.
    fn visit_trigger(
        &mut self,
        table: &RegistryKey,
        key: &RegistryKey,
        line: &mut Line,
    ) -> (res: Result<(), Fault>)
        ensures
            exists|step: TriggerStep| #[trigger]
                trigger_visited(
                    old(self)@,
                    *table,
                    *key,
                    old(line)@,
                    step,
                    final(self)@,
                    final(line)@,
                    res,
                ),
    {
        let ghost before = self@;
        let ghost start = line@;
        let read = read_trigger(&mut self.state, table, key);
        let ghost mut step = TriggerStep {
            read: trigger_outcome(read),
            called: Ok(Ok(())),
            closed: false,
            flag: Ok(false),
            cleared: Ok(()),
        };
        let ghost looked = LuaOp::ReadTrigger { table: *table, key: *key, outcome: step.read };
        proof {
            assert(self@.history =~= before.history + seq![looked]);
            assert(before.outbox.accepting(Seq::empty()).accepting(Seq::empty())
                =~= before.outbox);
        }
        let trigger = match read {
            Ok(Some(trigger)) => trigger,
            Ok(None) => {
                assert(trigger_visited(
                    before,
                    *table,
                    *key,
                    start,
                    step,
                    self@,
                    line@,
                    Ok::<(), Fault>(()),
                ));
                return Ok(());
            },
            Err(message) => {
                let res = Err(Fault::Script(message));
                assert(trigger_visited(before, *table, *key, start, step, self@, line@, res));
                return res;
            },
        };
        let captures = match trigger.captures(line) {
            Some(captures) => captures,
            None => {
                assert(trigger_visited(
                    before,
                    *table,
                    *key,
                    start,
                    step,
                    self@,
                    line@,
                    Ok::<(), Fault>(()),
                ));
                return Ok(());
            },
        };
        let called = call_trigger(&mut self.state, table, key, captures);
        let ghost entry_called = LuaOp::CallTrigger {
            table: *table,
            key: *key,
            captures: step.captures(start)->0,
            outcome: entry_outcome(called),
        };
        proof {
            step = TriggerStep { called: entry_outcome(called), ..step };
            assert(self@.history =~= before.history + seq![looked, entry_called]);
        }
        match called {
            Ok(Ok(())) => {},
            Ok(Err(message)) => {
                let ghost text = message@;
                let sent = self.report(message);
                assert(self@.history =~= before.history + seq![looked, entry_called]);
                if let Err(fault) = sent {
                    proof {
                        step = TriggerStep { closed: true, ..step };
                        assert(step.ops(*table, *key, start) =~= seq![looked, entry_called]);
                        assert(before.outbox.accepting(Seq::empty()) =~= before.outbox);
                        assert(trigger_visited(
                            before,
                            *table,
                            *key,
                            start,
                            step,
                            self@,
                            line@,
                            Err::<(), Fault>(fault),
                        ));
                    }
                    return Err(fault);
                }
                assert(before.outbox.accepting(Seq::empty()).accepting(error_report(text))
                    =~= self@.outbox);
            },
            Err(message) => {
                let res = Err(Fault::Script(message));
                assert(step.ops(*table, *key, start) =~= seq![looked, entry_called]);
                assert(trigger_visited(before, *table, *key, start, step, self@, line@, res));
                return res;
            },
        }
        let mut flags = line.flags();
        flags.matched = true;
        line.set_flags(flags);
        let mut gag = trigger.gags();
        if !gag {
            let flag = get_flag(&mut self.state, GAG_NEXT_TRIGGER_LINE);
            proof {
                step = TriggerStep { flag: outcome(flag), ..step };
            }
            match flag {
                Ok(next) => {
                    gag = next;
                },
                Err(message) => {
                    let res = Err(Fault::Script(message));
                    assert(self@.history =~= before.history + step.ops(*table, *key, start));
                    assert(trigger_visited(before, *table, *key, start, step, self@, line@, res));
                    return res;
                },
            }
        }
        flags.gag = gag;
        line.set_flags(flags);
        let clear = set_flag(&mut self.state, GAG_NEXT_TRIGGER_LINE, false);
        proof {
            step = TriggerStep { cleared: outcome(clear), ..step };
            assert(self@.history =~= before.history + step.ops(*table, *key, start));
        }
        let res = fault_of(clear);
        assert(trigger_visited(before, *table, *key, start, step, self@, line@, res));
        res
    }

    /// Calls every enabled trigger of a table that the line matches, and notes on
    /// the line whether there was one and whether it is to be shown.
    ///
    /// The triggers are those that are there at the start: one that a callback
    /// removes before its turn is passed over, and one that a callback adds waits
    /// for the next line.
    fn check_trigger_match(&mut self, line: &mut Line, name: &str) -> (res: Result<(), Fault>)
        ensures
            exists|
                listed: Result<(RegistryKey, Seq<RegistryKey>), Seq<char>>,
                steps: Seq<TriggerStep>,
            | #[trigger]
                triggers_checked(
                    old(self)@,
                    name@,
                    old(line)@,
                    listed,
                    steps,
                    final(self)@,
                    final(line)@,
                    res,
                ),
    {
        let ghost before = self@;
        let ghost start = line@;
        let ghost mut steps: Seq<TriggerStep> = Seq::empty();
        let (table, keys) = match table_keys(&mut self.state, name) {
            Ok(held) => held,
            Err(message) => {
                let res = Err(Fault::Script(message));
                proof {
                    let listed = Err::<(RegistryKey, Seq<RegistryKey>), Seq<char>>(message@);
                    let list = LuaOp::Keys { name: name@, outcome: listed };
                    assert(self@.history =~= before.history + seq![list]);
                    assert(triggers_checked(
                        before,
                        name@,
                        start,
                        listed,
                        steps,
                        self@,
                        line@,
                        res,
                    ));
                }
                return res;
            },
        };
        let ghost listed = Ok::<(RegistryKey, Seq<RegistryKey>), Seq<char>>((table, keys@));
        let ghost list = LuaOp::Keys { name: name@, outcome: listed };
        let mut i: usize = 0;
        assert(self@.history =~= before.history + (seq![list] + trigger_ops(
            table,
            keys@,
            start,
            steps,
        )));
        assert(self@.outbox =~= before.outbox.accepting(trigger_reports(start, steps)));
        while i < keys.len()
            invariant
                i <= keys.len(),
                start == old(line)@,
                before == old(self)@,
                listed == Ok::<(RegistryKey, Seq<RegistryKey>), Seq<char>>((table, keys@)),
                list == (LuaOp::Keys { name: name@, outcome: listed }),
                steps.len() == i,
                forall|k: int| 0 <= k < i ==> (#[trigger] steps[k]).fault(start) is None,
                line@ == (LineView { flags: trigger_flags(start, steps), ..start }),
                self@ == (ScriptView {
                    outbox: before.outbox.accepting(trigger_reports(start, steps)),
                    ..after_ops(before, seq![list] + trigger_ops(table, keys@, start, steps))
                }),
            decreases keys.len() - i,
        {
            let ghost here = self@;
            let ghost line_here = line@;
            let ghost done = steps;
            let visit = self.visit_trigger(&table, &keys[i], line);
            proof {
                let step = choose|step: TriggerStep| #[trigger]
                    trigger_visited(
                        here,
                        table,
                        keys@[i as int],
                        line_here,
                        step,
                        self@,
                        line@,
                        visit,
                    );
                steps = steps.push(step);
                assert(steps.drop_last() =~= done);
                assert(forall|k: int| 0 <= k < i ==> steps[k] == done[k]);
                assert(step.captures(line_here) == step.captures(start));
                assert(self@.history =~= before.history + (seq![list] + trigger_ops(
                    table,
                    keys@,
                    start,
                    steps,
                )));
                assert(here.outbox.accepting(Seq::empty()) =~= here.outbox);
                assert(before.outbox.accepting(trigger_reports(start, steps))
                    =~= here.outbox.accepting(step.report(start)));
            }
            if let Err(fault) = visit {
                assert(triggers_checked(
                    before,
                    name@,
                    start,
                    listed,
                    steps,
                    self@,
                    line@,
                    Err::<(), Fault>(fault),
                ));
                return Err(fault);
            }
            i = i + 1;
        }
        assert(triggers_checked(
            before,
            name@,
            start,
            listed,
            steps,
            self@,
            line@,
            Ok::<(), Fault>(()),
        ));
        Ok(())
    }

    /// Calls every enabled trigger that the line matches, and notes on the line
    /// whether there was one and whether it is to be shown.
    pub fn check_for_trigger_match(&mut self, line: &mut Line) -> (res: Result<(), Fault>)
        ensures
            exists|
                listed: Result<(RegistryKey, Seq<RegistryKey>), Seq<char>>,
                steps: Seq<TriggerStep>,
            | #[trigger]
                triggers_checked(
                    old(self)@,
                    TRIGGER_TABLE@,
                    old(line)@,
                    listed,
                    steps,
                    final(self)@,
                    final(line)@,
                    res,
                ),
    {
        self.check_trigger_match(line, TRIGGER_TABLE)
    }

    /// Calls every enabled trigger for prompts that the line matches, and notes on
    /// the line whether there was one and whether it is to be shown.
    pub fn check_for_prompt_trigger_match(&mut self, line: &mut Line) -> (res: Result<(), Fault>)
        ensures
            exists|
                listed: Result<(RegistryKey, Seq<RegistryKey>), Seq<char>>,
                steps: Seq<TriggerStep>,
            | #[trigger]
                triggers_checked(
                    old(self)@,
                    PROMPT_TRIGGER_TABLE@,
                    old(line)@,
                    listed,
                    steps,
                    final(self)@,
                    final(line)@,
                    res,
                ),
    {
        self.check_trigger_match(line, PROMPT_TRIGGER_TABLE)
    }
}

/// What a request comes to that ends as `res` does.
pub fn fault_of(res: Result<(), String>) -> (fault: Result<(), Fault>)
    ensures
        result_of(outcome(res), fault),
{
    match res {
        Ok(()) => Ok(()),
        Err(message) => Err(Fault::Script(message)),
    }
}

} // verus!
