//! What the functions of a script state do, told by the record alone: which operations
//! are added to it, with which arguments, and what has been sent.

use super::blight::{line_views, ui_views, BlightView, UiEvent};
use super::constants::{
    ALIAS_TABLE, COMMAND_BINDING_TABLE, GAG_NEXT_TRIGGER_LINE, GMCP_LISTENER_TABLE, JSON_MODULE,
    ON_CONNCTION_CALLBACK, ON_GMCP_READY_CALLBACK, PROMPT_TRIGGER_TABLE, TIMED_FUNCTION_TABLE,
    TRIGGER_TABLE,
};
use super::effects::{
    binding_checked, connection_told, dimensions_set, gmcp_readiness_told, gmcp_received,
    hook_called, output_taken, reported, result_of, setup_failed, setup_ops, state_reset,
    timed_function_removed, timed_function_run, ui_events_taken, ScriptView,
};
use super::interpreter::{lua_history, LuaArgs, LuaOp};
use super::resources::{BINDINGS_SCRIPT, DEFAULTS_SCRIPT, JSON_SCRIPT, LUA_COMMAND_SCRIPT};
use crate::event::{error_report, law_cut_short_is_a_prefix, Fault, FaultView};
use crate::line::Line;
use rlua::{Lua, RegistryKey};
use vstd::prelude::*;

verus! {

/// A script state is set up with everything that its functions ask for, before any
/// script runs: the `blight` object with nothing in it, six tables, and a flag that is
/// off. The scripts of the client run last, and nothing else is done.
pub proof fn law_setup_makes_what_is_needed(channel: int, dimensions: (u16, u16))
    ensures
        ({
            let ops = setup_ops(channel, dimensions);
            &&& ops.len() == 12
            &&& ops[0] matches LuaOp::SetBlight { blight, outcome }
            &&& outcome is Ok
            &&& blight.output_lines.len() == 0
            &&& blight.ui_events.len() == 0
            &&& blight.screen_dimensions == dimensions
            &&& blight.channel == channel
            &&& blight.outbox.sent.len() == 0
            &&& blight.outbox.refused.len() == 0
            &&& ops[1] == (LuaOp::NewTable { name: ALIAS_TABLE@, outcome: Ok(()) })
            &&& ops[2] == (LuaOp::NewTable { name: TRIGGER_TABLE@, outcome: Ok(()) })
            &&& ops[3] == (LuaOp::NewTable { name: PROMPT_TRIGGER_TABLE@, outcome: Ok(()) })
            &&& ops[4] == (LuaOp::NewTable { name: GMCP_LISTENER_TABLE@, outcome: Ok(()) })
            &&& ops[5] == (LuaOp::NewTable { name: TIMED_FUNCTION_TABLE@, outcome: Ok(()) })
            &&& ops[6] == (LuaOp::NewTable { name: COMMAND_BINDING_TABLE@, outcome: Ok(()) })
            &&& ops[7] == (LuaOp::SetFlag {
                name: GAG_NEXT_TRIGGER_LINE@,
                value: false,
                outcome: Ok(()),
            })
            &&& ops[8] == (LuaOp::LoadModule {
                name: JSON_MODULE@,
                source: JSON_SCRIPT@,
                outcome: Ok(()),
            })
            &&& ops[9] == (LuaOp::Exec { source: BINDINGS_SCRIPT@, outcome: Ok(()) })
            &&& ops[10] == (LuaOp::Exec { source: DEFAULTS_SCRIPT@, outcome: Ok(()) })
            &&& ops[11] == (LuaOp::Exec { source: LUA_COMMAND_SCRIPT@, outcome: Ok(()) })
        }),
{
}

/// What the interpreter said against an operation, if anything. A callback that ended in
/// an error has been called all the same.
pub open spec fn refusal_of(op: LuaOp) -> Option<Seq<char>> {
    match op {
        LuaOp::GetBlight { outcome: Err(message) } => Some(message),
        LuaOp::SetBlight { outcome: Err(message), .. } => Some(message),
        LuaOp::NewTable { outcome: Err(message), .. } => Some(message),
        LuaOp::GetFlag { outcome: Err(message), .. } => Some(message),
        LuaOp::SetFlag { outcome: Err(message), .. } => Some(message),
        LuaOp::LoadModule { outcome: Err(message), .. } => Some(message),
        LuaOp::Exec { outcome: Err(message), .. } => Some(message),
        LuaOp::ExecNamed { outcome: Err(message), .. } => Some(message),
        LuaOp::Keys { outcome: Err(message), .. } => Some(message),
        LuaOp::ReadAlias { outcome: Err(message), .. } => Some(message),
        LuaOp::ReadTrigger { outcome: Err(message), .. } => Some(message),
        LuaOp::CallAlias { outcome: Err(message), .. } => Some(message),
        LuaOp::CallTrigger { outcome: Err(message), .. } => Some(message),
        LuaOp::FindNamed { outcome: Err(message), .. } => Some(message),
        LuaOp::FindNumbered { outcome: Err(message), .. } => Some(message),
        LuaOp::ClearNumbered { outcome: Err(message), .. } => Some(message),
        LuaOp::Call { outcome: Err(message), .. } => Some(message),
        _ => None,
    }
}

/// A setup that fails has gone as it should up to one operation, which the interpreter
/// refused, and the fault is what it said.
pub proof fn law_failed_setup_tells_why(
    channel: int,
    dimensions: (u16, u16),
    lua: Lua,
    fault: Fault,
)
    requires
        setup_failed(channel, dimensions, lua, fault),
    ensures
        ({
            let history = lua_history(lua);
            let n = history.len() - 1;
            &&& 0 <= n < 12
            &&& history.take(n) == setup_ops(channel, dimensions).take(n)
            &&& refusal_of(history[n]) is Some
            &&& fault@ == FaultView::Script(refusal_of(history[n])->0)
        }),
{
    let history = lua_history(lua);
    let n = history.len() - 1;
    let ops = setup_ops(channel, dimensions);
    assert(history.take(n) =~= ops.take(n));
    assert(n == 0 || n == 1 || n == 2 || n == 3 || n == 4 || n == 5 || n == 6 || n == 7 || n == 8
        || n == 9 || n == 10 || n == 11);
}

/// After a reset the record starts over and scripts have been told nothing, but what was
/// sent stays. If the reset fails, the record stays too.
pub proof fn law_reset_starts_over(
    before: ScriptView,
    dimensions: (u16, u16),
    after: ScriptView,
    res: Result<(), Fault>,
)
    requires
        state_reset(before, dimensions, after, res),
    ensures
        res is Ok ==> after.history == setup_ops(before.channel, dimensions),
        res is Err ==> after.history == before.history,
        !after.connected,
        !after.gmcp_ready,
        after.outbox == before.outbox,
        after.channel == before.channel,
{
}

/// A request comes to what the interpreter made of it.
pub proof fn law_results_are_passed_on(outcome: Result<(), Seq<char>>, res: Result<(), Fault>)
    requires
        result_of(outcome, res),
    ensures
        res is Ok <==> outcome is Ok,
        outcome matches Err(message) ==> res->Err_0@ == FaultView::Script(message),
{
}

/// What is reported to the user is the error that a script ended in, all of it, and
/// nothing if it ended in none.
pub proof fn law_errors_are_reported(
    before: ScriptView,
    ops: Seq<LuaOp>,
    outcome: Result<(), Seq<char>>,
    after: ScriptView,
    res: Result<(), Fault>,
)
    requires
        reported(before, ops, outcome, after, res),
    ensures
        after.history == before.history + ops,
        after.channel == before.channel,
        after.connected == before.connected,
        after.gmcp_ready == before.gmcp_ready,
        outcome is Ok ==> res is Ok && after.outbox == before.outbox,
        outcome matches Err(message) ==> {
            &&& res is Ok ==> {
                &&& after.outbox.sent == before.outbox.sent + error_report(message)
                &&& after.outbox.refused == before.outbox.refused
            }
            &&& res matches Err(fault) ==> {
                let n = after.outbox.sent.len() - before.outbox.sent.len();
                &&& fault@ == FaultView::Closed
                &&& 0 <= n < error_report(message).len()
                &&& after.outbox.sent == before.outbox.sent + error_report(message).take(n)
                &&& after.outbox.refused == before.outbox.refused.push(error_report(message)[n])
            }
        },
{
    if outcome is Err && res is Err {
        law_cut_short_is_a_prefix(before.outbox, error_report(outcome->Err_0), after.outbox);
    }
}

/// The function in a global is looked up, and called, once, if there is one, with the
/// arguments given. Nothing else is asked of the interpreter.
pub proof fn law_hook_is_called(
    before: ScriptView,
    name: Seq<char>,
    args: LuaArgs,
    found: Option<RegistryKey>,
    called: Result<(), Seq<char>>,
    after: ScriptView,
    res: Result<(), Fault>,
)
    requires
        hook_called(before, name, args, found, called, after, res),
    ensures
        found is None ==> {
            &&& after.history == before.history.push(LuaOp::FindGlobal { name, found })
            &&& after.outbox == before.outbox
            &&& res is Ok
        },
        found matches Some(function) ==> {
            &&& after.history == before.history.push(LuaOp::FindGlobal { name, found }).push(
                LuaOp::Call { function, args, outcome: called },
            )
            &&& called is Ok ==> res is Ok && after.outbox == before.outbox
            &&& called matches Err(message) ==> {
                &&& res is Ok ==> after.outbox.sent == before.outbox.sent + error_report(message)
                &&& res matches Err(fault) ==> fault@ == FaultView::Closed
            }
        },
        after.channel == before.channel,
        after.connected == before.connected,
        after.gmcp_ready == before.gmcp_ready,
{
}

/// As long as scripts have not been told of a connection, they are told of one, whatever
/// else they have been told: the callback is looked up, and called with the host and the
/// port if there is one. From then on they count as told.
pub proof fn law_first_connection_is_told(
    before: ScriptView,
    host: Seq<char>,
    port: u16,
    after: ScriptView,
    res: Result<(), Fault>,
)
    requires
        connection_told(before, host, port, after, res),
    ensures
        before.connected ==> after == before && res is Ok,
        !before.connected ==> {
            let n = before.history.len() as int;
            &&& after.connected
            &&& after.gmcp_ready == before.gmcp_ready
            &&& after.channel == before.channel
            &&& n < after.history.len() <= n + 2
            &&& after.history.take(n) == before.history
            &&& after.history[n] matches LuaOp::FindGlobal { name, found }
            &&& name == ON_CONNCTION_CALLBACK@
            &&& found is Some <==> after.history.len() == n + 2
            &&& found matches Some(callback) ==> {
                &&& after.history[n + 1] matches LuaOp::Call { function, args, outcome }
                &&& function == callback
                &&& args == LuaArgs::Address(host, port)
                &&& outcome is Ok ==> res is Ok && after.outbox == before.outbox
                &&& outcome matches Err(message) ==> res is Ok ==> after.outbox.sent
                    == before.outbox.sent + error_report(message)
            }
            &&& found is None ==> res is Ok && after.outbox == before.outbox
        },
{
    if !before.connected {
        let start = ScriptView { connected: true, ..before };
        let args = LuaArgs::Address(host, port);
        let (found, called) = choose|found: Option<RegistryKey>, called: Result<(), Seq<char>>|
            #[trigger]
            hook_called(start, ON_CONNCTION_CALLBACK@, args, found, called, after, res);
        law_hook_is_called(start, ON_CONNCTION_CALLBACK@, args, found, called, after, res);
        assert(after.history.take(before.history.len() as int) =~= before.history);
    }
}

/// As long as scripts have not been told that the server talks GMCP, they are told,
/// whatever else they have been told: the callback is looked up, and called if there is
/// one. From then on they count as told.
pub proof fn law_gmcp_readiness_is_told(
    before: ScriptView,
    after: ScriptView,
    res: Result<(), Fault>,
)
    requires
        gmcp_readiness_told(before, after, res),
    ensures
        before.gmcp_ready ==> after == before && res is Ok,
        !before.gmcp_ready ==> {
            let n = before.history.len() as int;
            &&& after.gmcp_ready
            &&& after.connected == before.connected
            &&& after.channel == before.channel
            &&& n < after.history.len() <= n + 2
            &&& after.history.take(n) == before.history
            &&& after.history[n] matches LuaOp::FindGlobal { name, found }
            &&& name == ON_GMCP_READY_CALLBACK@
            &&& found is Some <==> after.history.len() == n + 2
            &&& found matches Some(callback) ==> {
                &&& after.history[n + 1] matches LuaOp::Call { function, args, outcome }
                &&& function == callback
                &&& args == LuaArgs::Nothing
                &&& outcome is Ok ==> res is Ok && after.outbox == before.outbox
                &&& outcome matches Err(message) ==> res is Ok ==> after.outbox.sent
                    == before.outbox.sent + error_report(message)
            }
            &&& found is None ==> res is Ok && after.outbox == before.outbox
        },
{
    if !before.gmcp_ready {
        let start = ScriptView { gmcp_ready: true, ..before };
        let (found, called) = choose|found: Option<RegistryKey>, called: Result<(), Seq<char>>|
            #[trigger]
            hook_called(
                start,
                ON_GMCP_READY_CALLBACK@,
                LuaArgs::Nothing,
                found,
                called,
                after,
                res,
            );
        law_hook_is_called(
            start,
            ON_GMCP_READY_CALLBACK@,
            LuaArgs::Nothing,
            found,
            called,
            after,
            res,
        );
        assert(after.history.take(before.history.len() as int) =~= before.history);
    }
}

/// A listener gets all of a GMCP message but its kind: the kind, a blank and the text
/// that the listener is called with are the message. It is the listener that was found
/// for that kind, and if there is none, nobody is called.
pub proof fn law_listener_gets_the_whole_message(
    before: ScriptView,
    data: Seq<char>,
    kind: Seq<char>,
    content: Seq<char>,
    found: Result<Option<RegistryKey>, Seq<char>>,
    called: Result<(), Seq<char>>,
    after: ScriptView,
    res: Result<(), Fault>,
)
    requires
        data == kind.push(' ') + content,
        !kind.contains(' '),
        gmcp_received(before, kind, content, found, called, after, res),
    ensures
        ({
            let n = before.history.len() as int;
            &&& after.history.len() > n
            &&& after.history.take(n) == before.history
            &&& after.history[n] == (LuaOp::FindNamed {
                table: GMCP_LISTENER_TABLE@,
                name: kind,
                outcome: found,
            })
            &&& match found {
                Ok(Some(listener)) => {
                    &&& after.history.len() == n + 2
                    &&& after.history[n + 1] matches LuaOp::Call { function, args, outcome }
                    &&& function == listener
                    &&& args matches LuaArgs::Text(text)
                    &&& kind.push(' ') + text == data
                    &&& outcome is Ok ==> res is Ok && after.outbox == before.outbox
                    &&& outcome matches Err(message) ==> res is Ok ==> after.outbox.sent
                        == before.outbox.sent + error_report(message)
                },
                Ok(None) => {
                    &&& after.history.len() == n + 1
                    &&& res is Ok
                    &&& after.outbox == before.outbox
                },
                Err(message) => {
                    &&& after.history.len() == n + 1
                    &&& res matches Err(fault) && fault@ == FaultView::Script(message)
                    &&& after.outbox == before.outbox
                },
            }
            &&& after.connected == before.connected
            &&& after.gmcp_ready == before.gmcp_ready
            &&& after.channel == before.channel
        }),
{
    assert(after.history.take(before.history.len() as int) =~= before.history);
}

/// A key calls the function that is bound to it, without arguments, and no other; an
/// error in it is handed back. A key that nothing is bound to does nothing.
pub proof fn law_key_calls_its_function(
    before: ScriptView,
    key: Seq<char>,
    found: Result<Option<RegistryKey>, Seq<char>>,
    called: Result<(), Seq<char>>,
    after: ScriptView,
    res: Result<(), Fault>,
)
    requires
        binding_checked(before, key, found, called, after, res),
    ensures
        ({
            let find = LuaOp::FindNamed {
                table: COMMAND_BINDING_TABLE@,
                name: key,
                outcome: found,
            };
            match found {
                Ok(Some(function)) => {
                    &&& after.history == before.history.push(find).push(
                        LuaOp::Call { function, args: LuaArgs::Nothing, outcome: called },
                    )
                    &&& res is Ok <==> called is Ok
                    &&& called matches Err(message) ==> res->Err_0@ == FaultView::Script(message)
                },
                Ok(None) => after.history == before.history.push(find) && res is Ok,
                Err(message) => {
                    &&& after.history == before.history.push(find)
                    &&& res matches Err(fault) && fault@ == FaultView::Script(message)
                },
            }
        }),
        after.outbox == before.outbox,
        after.connected == before.connected,
        after.gmcp_ready == before.gmcp_ready,
        after.channel == before.channel,
{
}

/// The timed function with a number is called, without arguments, and no other; an error
/// in it is handed back, and so is that there is no such function.
pub proof fn law_timed_function_is_called(
    before: ScriptView,
    id: u32,
    found: Result<RegistryKey, Seq<char>>,
    called: Result<(), Seq<char>>,
    after: ScriptView,
    res: Result<(), Fault>,
)
    requires
        timed_function_run(before, id, found, called, after, res),
    ensures
        ({
            let find = LuaOp::FindNumbered { table: TIMED_FUNCTION_TABLE@, id, outcome: found };
            match found {
                Ok(function) => {
                    &&& after.history == before.history.push(find).push(
                        LuaOp::Call { function, args: LuaArgs::Nothing, outcome: called },
                    )
                    &&& res is Ok <==> called is Ok
                    &&& called matches Err(message) ==> res->Err_0@ == FaultView::Script(message)
                },
                Err(message) => {
                    &&& after.history == before.history.push(find)
                    &&& res matches Err(fault) && fault@ == FaultView::Script(message)
                },
            }
        }),
        after.outbox == before.outbox,
        after.connected == before.connected,
        after.gmcp_ready == before.gmcp_ready,
        after.channel == before.channel,
{
}

/// Removing a timed function is one request, for its number and no other.
pub proof fn law_timed_function_is_removed(
    before: ScriptView,
    id: u32,
    cleared: Result<(), Seq<char>>,
    after: ScriptView,
    res: Result<(), Fault>,
)
    requires
        timed_function_removed(before, id, cleared, after, res),
    ensures
        after.history == before.history.push(
            LuaOp::ClearNumbered { table: TIMED_FUNCTION_TABLE@, id, outcome: cleared },
        ),
        res is Ok <==> cleared is Ok,
        cleared matches Err(message) ==> res->Err_0@ == FaultView::Script(message),
        after.outbox == before.outbox,
        after.connected == before.connected,
        after.gmcp_ready == before.gmcp_ready,
        after.channel == before.channel,
{
}

/// Every line that waits in the `blight` object is handed out, in order, and the object
/// is put back without them and otherwise as it was.
pub proof fn law_every_waiting_line_is_handed_out(
    before: ScriptView,
    got: Result<BlightView, Seq<char>>,
    set: Result<(), Seq<char>>,
    after: ScriptView,
    res: Result<Vec<Line>, Fault>,
)
    requires
        output_taken(before, got, set, after, res),
    ensures
        match got {
            Ok(blight) => {
                let n = before.history.len() as int;
                &&& after.history.len() == n + 2
                &&& after.history.take(n) == before.history
                &&& after.history[n] == (LuaOp::GetBlight { outcome: got })
                &&& after.history[n + 1] matches LuaOp::SetBlight { blight: put, outcome }
                &&& outcome == set
                &&& put.output_lines.len() == 0
                &&& put.ui_events == blight.ui_events
                &&& put.screen_dimensions == blight.screen_dimensions
                &&& put.channel == blight.channel
                &&& put.outbox == blight.outbox
                &&& res is Ok <==> set is Ok
                &&& set matches Err(message) ==> res->Err_0@ == FaultView::Script(message)
                &&& res matches Ok(lines) ==> {
                    &&& lines@.len() == blight.output_lines.len()
                    &&& forall|i: int|
                        0 <= i < lines@.len() ==> (#[trigger] lines@[i])@
                            == blight.output_lines[i]
                }
            },
            Err(message) => {
                &&& after.history == before.history.push(LuaOp::GetBlight { outcome: got })
                &&& res matches Err(fault) && fault@ == FaultView::Script(message)
            },
        },
        after.outbox == before.outbox,
        after.connected == before.connected,
        after.gmcp_ready == before.gmcp_ready,
        after.channel == before.channel,
{
    if got is Ok {
        assert(after.history.take(before.history.len() as int) =~= before.history);
        if let Ok(lines) = res {
            assert(line_views(lines@).len() == lines@.len());
            assert forall|i: int| 0 <= i < lines@.len() implies (#[trigger] lines@[i])@
                == got->Ok_0.output_lines[i] by {
                assert(line_views(lines@)[i] == lines@[i]@);
            }
        }
    }
}

/// Everything that the user interface is to do is handed out, in order, and the `blight`
/// object is put back without it and otherwise as it was.
pub proof fn law_every_ui_event_is_handed_out(
    before: ScriptView,
    got: Result<BlightView, Seq<char>>,
    set: Result<(), Seq<char>>,
    after: ScriptView,
    res: Result<Vec<UiEvent>, Fault>,
)
    requires
        ui_events_taken(before, got, set, after, res),
    ensures
        match got {
            Ok(blight) => {
                let n = before.history.len() as int;
                &&& after.history.len() == n + 2
                &&& after.history.take(n) == before.history
                &&& after.history[n] == (LuaOp::GetBlight { outcome: got })
                &&& after.history[n + 1] matches LuaOp::SetBlight { blight: put, outcome }
                &&& outcome == set
                &&& put.ui_events.len() == 0
                &&& put.output_lines == blight.output_lines
                &&& put.screen_dimensions == blight.screen_dimensions
                &&& put.channel == blight.channel
                &&& put.outbox == blight.outbox
                &&& res is Ok <==> set is Ok
                &&& set matches Err(message) ==> res->Err_0@ == FaultView::Script(message)
                &&& res matches Ok(events) ==> {
                    &&& events@.len() == blight.ui_events.len()
                    &&& forall|i: int|
                        0 <= i < events@.len() ==> (#[trigger] events@[i]).command@
                            == blight.ui_events[i]
                }
            },
            Err(message) => {
                &&& after.history == before.history.push(LuaOp::GetBlight { outcome: got })
                &&& res matches Err(fault) && fault@ == FaultView::Script(message)
            },
        },
        after.outbox == before.outbox,
        after.connected == before.connected,
        after.gmcp_ready == before.gmcp_ready,
        after.channel == before.channel,
{
    if got is Ok {
        assert(after.history.take(before.history.len() as int) =~= before.history);
        if let Ok(events) = res {
            assert(ui_views(events@).len() == events@.len());
            assert forall|i: int| 0 <= i < events@.len() implies (
            #[trigger] events@[i]).command@ == got->Ok_0.ui_events[i] by {
                assert(ui_views(events@)[i] == events@[i]@);
            }
        }
    }
}

/// The `blight` object is put back with the size of the screen, and otherwise as it was.
pub proof fn law_only_the_size_changes(
    before: ScriptView,
    dimensions: (u16, u16),
    got: Result<BlightView, Seq<char>>,
    set: Result<(), Seq<char>>,
    after: ScriptView,
    res: Result<(), Fault>,
)
    requires
        dimensions_set(before, dimensions, got, set, after, res),
    ensures
        match got {
            Ok(blight) => {
                let n = before.history.len() as int;
                &&& after.history.len() == n + 2
                &&& after.history.take(n) == before.history
                &&& after.history[n] == (LuaOp::GetBlight { outcome: got })
                &&& after.history[n + 1] matches LuaOp::SetBlight { blight: put, outcome }
                &&& outcome == set
                &&& put.screen_dimensions == dimensions
                &&& put.output_lines == blight.output_lines
                &&& put.ui_events == blight.ui_events
                &&& put.channel == blight.channel
                &&& put.outbox == blight.outbox
                &&& res is Ok <==> set is Ok
                &&& set matches Err(message) ==> res->Err_0@ == FaultView::Script(message)
            },
            Err(message) => {
                &&& after.history == before.history.push(LuaOp::GetBlight { outcome: got })
                &&& res matches Err(fault) && fault@ == FaultView::Script(message)
            },
        },
        after.outbox == before.outbox,
        after.connected == before.connected,
        after.gmcp_ready == before.gmcp_ready,
        after.channel == before.channel,
{
    if got is Ok {
        assert(after.history.take(before.history.len() as int) =~= before.history);
    }
}

} // verus!
