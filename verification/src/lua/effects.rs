//! What the functions of a script state do, said over the record of what was asked
//! of the interpreter and what it answered.

use super::blight::{line_views, ui_views, BlightView, UiEvent};
use super::constants::{
    ALIAS_TABLE, COMMAND_BINDING_TABLE, GAG_NEXT_TRIGGER_LINE, GMCP_LISTENER_TABLE, JSON_MODULE,
    ON_CONNCTION_CALLBACK, ON_GMCP_READY_CALLBACK, PROMPT_TRIGGER_TABLE, TIMED_FUNCTION_TABLE,
    TRIGGER_TABLE,
};
use super::interpreter::{lua_history, LuaArgs, LuaOp};
use super::matcher::{AliasView, TriggerView};
use super::resources::{BINDINGS_SCRIPT, DEFAULTS_SCRIPT, JSON_SCRIPT, LUA_COMMAND_SCRIPT};
use crate::event::{cut_short, error_report, EventView, Fault, FaultView, Outbox};
use crate::line::{Flags, Line, LineView};
use rlua::{Lua, RegistryKey};
use vstd::prelude::*;

verus! {

/// A script state, and what the client has told it.
pub ghost struct ScriptView {
    /// What has been asked of the interpreter.
    pub history: Seq<LuaOp>,
    /// The error reports offered to the channel.
    pub outbox: Outbox,
    /// The channel that events are sent to.
    pub channel: int,
    /// Whether scripts have been told of a connection.
    pub connected: bool,
    /// Whether scripts have been told that the server talks GMCP.
    pub gmcp_ready: bool,
}

/// The `blight` object that a script state starts with.
pub open spec fn first_blight(channel: int, dimensions: (u16, u16)) -> BlightView {
    BlightView {
        output_lines: Seq::empty(),
        ui_events: Seq::empty(),
        screen_dimensions: dimensions,
        channel,
        outbox: Outbox::fresh(),
    }
}

/// What sets up a script state: the `blight` object, the tables, the flag, and the
/// scripts that come with the client.
pub open spec fn setup_ops(channel: int, dimensions: (u16, u16)) -> Seq<LuaOp> {
    seq![
        LuaOp::SetBlight { blight: first_blight(channel, dimensions), outcome: Ok(()) },
        LuaOp::NewTable { name: ALIAS_TABLE@, outcome: Ok(()) },
        LuaOp::NewTable { name: TRIGGER_TABLE@, outcome: Ok(()) },
        LuaOp::NewTable { name: PROMPT_TRIGGER_TABLE@, outcome: Ok(()) },
        LuaOp::NewTable { name: GMCP_LISTENER_TABLE@, outcome: Ok(()) },
        LuaOp::NewTable { name: TIMED_FUNCTION_TABLE@, outcome: Ok(()) },
        LuaOp::NewTable { name: COMMAND_BINDING_TABLE@, outcome: Ok(()) },
        LuaOp::SetFlag { name: GAG_NEXT_TRIGGER_LINE@, value: false, outcome: Ok(()) },
        LuaOp::LoadModule { name: JSON_MODULE@, source: JSON_SCRIPT@, outcome: Ok(()) },
        LuaOp::Exec { source: BINDINGS_SCRIPT@, outcome: Ok(()) },
        LuaOp::Exec { source: DEFAULTS_SCRIPT@, outcome: Ok(()) },
        LuaOp::Exec { source: LUA_COMMAND_SCRIPT@, outcome: Ok(()) },
    ]
}

/// One of the operations that set up a script state, had it been refused.
pub open spec fn refused(op: LuaOp, message: Seq<char>) -> LuaOp {
    match op {
        LuaOp::SetBlight { blight, .. } => LuaOp::SetBlight { blight, outcome: Err(message) },
        LuaOp::NewTable { name, .. } => LuaOp::NewTable { name, outcome: Err(message) },
        LuaOp::SetFlag { name, value, .. } => LuaOp::SetFlag {
            name,
            value,
            outcome: Err(message),
        },
        LuaOp::LoadModule { name, source, .. } => LuaOp::LoadModule {
            name,
            source,
            outcome: Err(message),
        },
        LuaOp::Exec { source, .. } => LuaOp::Exec { source, outcome: Err(message) },
        other => other,
    }
}

/// The setup of an interpreter with this record went well up to an operation that
/// was refused with `message`.
pub open spec fn setup_refused(
    channel: int,
    dimensions: (u16, u16),
    history: Seq<LuaOp>,
    message: Seq<char>,
) -> bool {
    let ops = setup_ops(channel, dimensions);
    let n = history.len() - 1;
    &&& 0 <= n < ops.len()
    &&& history == ops.take(n).push(refused(ops[n], message))
}

/// A fresh interpreter could not be set up, and `fault` tells what it said.
pub open spec fn setup_failed(
    channel: int,
    dimensions: (u16, u16),
    lua: Lua,
    fault: Fault,
) -> bool {
    &&& fault@ matches FaultView::Script(message)
    &&& setup_refused(channel, dimensions, lua_history(lua), message)
}

/// The state once some operations have been made on the interpreter, and nothing
/// else has happened.
pub open spec fn after_ops(before: ScriptView, ops: Seq<LuaOp>) -> ScriptView {
    ScriptView { history: before.history + ops, ..before }
}

/// `res` is what a request comes to that ends as `outcome` does.
pub open spec fn result_of(outcome: Result<(), Seq<char>>, res: Result<(), Fault>) -> bool {
    match outcome {
        Ok(()) => res is Ok,
        Err(message) => res matches Err(fault) && fault@ == FaultView::Script(message),
    }
}

/// What reading the `blight` object and putting it back asks of the interpreter.
pub open spec fn exchange_ops(
    got: Result<BlightView, Seq<char>>,
    put: BlightView,
    set: Result<(), Seq<char>>,
) -> Seq<LuaOp> {
    match got {
        Ok(_) => seq![
            LuaOp::GetBlight { outcome: got },
            LuaOp::SetBlight { blight: put, outcome: set },
        ],
        Err(_) => seq![LuaOp::GetBlight { outcome: got }],
    }
}

/// How reading the `blight` object and putting it back ends.
pub open spec fn exchange_outcome(
    got: Result<BlightView, Seq<char>>,
    set: Result<(), Seq<char>>,
) -> Result<(), Seq<char>> {
    match got {
        Ok(_) => set,
        Err(message) => Err(message),
    }
}

/// The lines to show are taken from the `blight` object that is there.
pub open spec fn output_taken(
    before: ScriptView,
    got: Result<BlightView, Seq<char>>,
    set: Result<(), Seq<char>>,
    after: ScriptView,
    res: Result<Vec<Line>, Fault>,
) -> bool {
    let put = BlightView { output_lines: Seq::empty(), ..got->Ok_0 };
    &&& after == after_ops(before, exchange_ops(got, put, set))
    &&& match exchange_outcome(got, set) {
        Ok(()) => res matches Ok(lines) && line_views(lines@) == got->Ok_0.output_lines,
        Err(message) => res matches Err(fault) && fault@ == FaultView::Script(message),
    }
}

/// What the user interface is to do is taken from the `blight` object that is
/// there.
pub open spec fn ui_events_taken(
    before: ScriptView,
    got: Result<BlightView, Seq<char>>,
    set: Result<(), Seq<char>>,
    after: ScriptView,
    res: Result<Vec<UiEvent>, Fault>,
) -> bool {
    let put = BlightView { ui_events: Seq::empty(), ..got->Ok_0 };
    &&& after == after_ops(before, exchange_ops(got, put, set))
    &&& match exchange_outcome(got, set) {
        Ok(()) => res matches Ok(events) && ui_views(events@) == got->Ok_0.ui_events,
        Err(message) => res matches Err(fault) && fault@ == FaultView::Script(message),
    }
}

/// The `blight` object that is there is told the size of the screen.
pub open spec fn dimensions_set(
    before: ScriptView,
    dimensions: (u16, u16),
    got: Result<BlightView, Seq<char>>,
    set: Result<(), Seq<char>>,
    after: ScriptView,
    res: Result<(), Fault>,
) -> bool {
    let put = BlightView { screen_dimensions: dimensions, ..got->Ok_0 };
    &&& after == after_ops(before, exchange_ops(got, put, set))
    &&& result_of(exchange_outcome(got, set), res)
}

/// What calling a function asks of the interpreter, if there is one to call.
pub open spec fn call_ops(
    find: LuaOp,
    found: Option<RegistryKey>,
    args: LuaArgs,
    called: Result<(), Seq<char>>,
) -> Seq<LuaOp> {
    match found {
        Some(function) => seq![find, LuaOp::Call { function, args, outcome: called }],
        None => seq![find],
    }
}

/// `ops` have been made, and if the scripts went wrong in a way that the user is
/// told of, then the user has been told, as far as there is anybody to tell.
pub open spec fn reported(
    before: ScriptView,
    ops: Seq<LuaOp>,
    outcome: Result<(), Seq<char>>,
    after: ScriptView,
    res: Result<(), Fault>,
) -> bool {
    &&& after == (ScriptView { outbox: after.outbox, ..after_ops(before, ops) })
    &&& match outcome {
        Ok(()) => res is Ok && after.outbox == before.outbox,
        Err(message) => match res {
            Ok(()) => after.outbox == before.outbox.accepting(error_report(message)),
            Err(fault) => fault is Closed && cut_short(
                before.outbox,
                error_report(message),
                after.outbox,
            ),
        },
    }
}

/// The function in a global has been called, if there is one.
pub open spec fn hook_called(
    before: ScriptView,
    name: Seq<char>,
    args: LuaArgs,
    found: Option<RegistryKey>,
    called: Result<(), Seq<char>>,
    after: ScriptView,
    res: Result<(), Fault>,
) -> bool {
    let ops = call_ops(LuaOp::FindGlobal { name, found }, found, args, called);
    reported(
        before,
        ops,
        if found is Some {
            called
        } else {
            Ok(())
        },
        after,
        res,
    )
}

/// The listener for a GMCP message has been called, if there is one.
pub open spec fn gmcp_received(
    before: ScriptView,
    kind: Seq<char>,
    content: Seq<char>,
    found: Result<Option<RegistryKey>, Seq<char>>,
    called: Result<(), Seq<char>>,
    after: ScriptView,
    res: Result<(), Fault>,
) -> bool {
    let find = LuaOp::FindNamed { table: GMCP_LISTENER_TABLE@, name: kind, outcome: found };
    match found {
        Ok(function) => reported(
            before,
            call_ops(find, function, LuaArgs::Text(content), called),
            if function is Some {
                called
            } else {
                Ok(())
            },
            after,
            res,
        ),
        Err(message) => {
            &&& after == after_ops(before, seq![find])
            &&& res matches Err(fault) && fault@ == FaultView::Script(message)
        },
    }
}

/// The function bound to a key has been called, if there is one.
pub open spec fn binding_checked(
    before: ScriptView,
    key: Seq<char>,
    found: Result<Option<RegistryKey>, Seq<char>>,
    called: Result<(), Seq<char>>,
    after: ScriptView,
    res: Result<(), Fault>,
) -> bool {
    let find = LuaOp::FindNamed { table: COMMAND_BINDING_TABLE@, name: key, outcome: found };
    match found {
        Ok(function) => {
            &&& after == after_ops(before, call_ops(find, function, LuaArgs::Nothing, called))
            &&& result_of(
                if function is Some {
                    called
                } else {
                    Ok(())
                },
                res,
            )
        },
        Err(message) => {
            &&& after == after_ops(before, seq![find])
            &&& result_of(Err(message), res)
        },
    }
}

/// The timed function with a number has been called.
pub open spec fn timed_function_run(
    before: ScriptView,
    id: u32,
    found: Result<RegistryKey, Seq<char>>,
    called: Result<(), Seq<char>>,
    after: ScriptView,
    res: Result<(), Fault>,
) -> bool {
    let find = LuaOp::FindNumbered { table: TIMED_FUNCTION_TABLE@, id, outcome: found };
    match found {
        Ok(function) => {
            &&& after == after_ops(
                before,
                call_ops(find, Some(function), LuaArgs::Nothing, called),
            )
            &&& result_of(called, res)
        },
        Err(message) => {
            &&& after == after_ops(before, seq![find])
            &&& result_of(Err(message), res)
        },
    }
}

/// The place of the timed function with a number has been emptied.
pub open spec fn timed_function_removed(
    before: ScriptView,
    id: u32,
    cleared: Result<(), Seq<char>>,
    after: ScriptView,
    res: Result<(), Fault>,
) -> bool {
    let clear = LuaOp::ClearNumbered { table: TIMED_FUNCTION_TABLE@, id, outcome: cleared };
    &&& after == after_ops(before, seq![clear])
    &&& result_of(cleared, res)
}

/// Scripts have been told of a connection: the first one since the state was set
/// up is passed on, and any other is ignored.
pub open spec fn connection_told(
    before: ScriptView,
    host: Seq<char>,
    port: u16,
    after: ScriptView,
    res: Result<(), Fault>,
) -> bool {
    if before.connected {
        after == before && res is Ok
    } else {
        exists|found: Option<RegistryKey>, called: Result<(), Seq<char>>| #[trigger]
            hook_called(
                ScriptView { connected: true, ..before },
                ON_CONNCTION_CALLBACK@,
                LuaArgs::Address(host, port),
                found,
                called,
                after,
                res,
            )
    }
}

/// Scripts have been told that the server talks GMCP: the first time since the
/// state was set up is passed on, and any other is ignored.
pub open spec fn gmcp_readiness_told(
    before: ScriptView,
    after: ScriptView,
    res: Result<(), Fault>,
) -> bool {
    if before.gmcp_ready {
        after == before && res is Ok
    } else {
        exists|found: Option<RegistryKey>, called: Result<(), Seq<char>>| #[trigger]
            hook_called(
                ScriptView { gmcp_ready: true, ..before },
                ON_GMCP_READY_CALLBACK@,
                LuaArgs::Nothing,
                found,
                called,
                after,
                res,
            )
    }
}

/// The script state has been set up afresh, unless that failed.
pub open spec fn state_reset(
    before: ScriptView,
    dimensions: (u16, u16),
    after: ScriptView,
    res: Result<(), Fault>,
) -> bool {
    &&& after == (ScriptView {
        history: if res is Ok {
            setup_ops(before.channel, dimensions)
        } else {
            before.history
        },
        outbox: before.outbox,
        channel: before.channel,
        connected: false,
        gmcp_ready: false,
    })
    &&& res matches Err(fault) ==> exists|lua: Lua| #[trigger]
        setup_failed(before.channel, dimensions, lua, fault)
}

/// How a visit to an alias went: what was read under its key, and, if it was to be
/// called, how that went and whether nobody was there to be told of an error.
pub ghost struct AliasStep {
    pub read: Result<Option<AliasView>, Seq<char>>,
    pub called: Result<Result<(), Seq<char>>, Seq<char>>,
    pub closed: bool,
}

impl AliasStep {
    /// What the callback gets, if it is called.
    pub open spec fn captures(self, line: LineView) -> Option<Seq<Seq<char>>> {
        match self.read {
            Ok(Some(alias)) => alias.captures(line),
            _ => None,
        }
    }

    /// What is asked of the interpreter.
    pub open spec fn ops(self, table: RegistryKey, key: RegistryKey, line: LineView) -> Seq<LuaOp> {
        let read = LuaOp::ReadAlias { table, key, outcome: self.read };
        match self.captures(line) {
            Some(captures) => seq![
                read,
                LuaOp::CallAlias { table, key, captures, outcome: self.called },
            ],
            None => seq![read],
        }
    }

    /// What the user is told.
    pub open spec fn report(self, line: LineView) -> Seq<EventView> {
        match (self.captures(line), self.called) {
            (Some(_), Ok(Err(message))) => error_report(message),
            _ => Seq::empty(),
        }
    }

    /// What stops the visits, if anything.
    pub open spec fn fault(self, line: LineView) -> Option<FaultView> {
        match self.read {
            Err(message) => Some(FaultView::Script(message)),
            Ok(_) => if self.captures(line) is None {
                None
            } else {
                match self.called {
                    Err(message) => Some(FaultView::Script(message)),
                    Ok(Err(_)) if self.closed => Some(FaultView::Closed),
                    Ok(_) => None,
                }
            },
        }
    }
}

/// What visits to the entries of `table` under `keys` ask of the interpreter.
pub open spec fn alias_ops(
    table: RegistryKey,
    keys: Seq<RegistryKey>,
    line: LineView,
    steps: Seq<AliasStep>,
) -> Seq<LuaOp>
    decreases steps.len(),
{
    if steps.len() == 0 {
        Seq::empty()
    } else {
        alias_ops(table, keys, line, steps.drop_last()) + steps.last().ops(
            table,
            keys[steps.len() - 1],
            line,
        )
    }
}

/// What the user is told during the visits.
pub open spec fn alias_reports(line: LineView, steps: Seq<AliasStep>) -> Seq<EventView>
    decreases steps.len(),
{
    if steps.len() == 0 {
        Seq::empty()
    } else {
        alias_reports(line, steps.drop_last()) + steps.last().report(line)
    }
}

/// Whether a callback was called during the visits.
pub open spec fn alias_called(line: LineView, steps: Seq<AliasStep>) -> bool {
    exists|i: int| 0 <= i < steps.len() && (#[trigger] steps[i]).captures(line) is Some
}

/// `after` is what had been offered to the channel when the visits came to an end
/// with `fault`, or without one: what was offered `before`, the reports of the visits
/// before the last one, and the report of the last one, which is cut short if nobody
/// takes it.
pub open spec fn told(
    before: Outbox,
    earlier: Seq<EventView>,
    report: Seq<EventView>,
    after: Outbox,
    fault: Option<FaultView>,
) -> bool {
    if fault is Some && fault->0 is Closed {
        cut_short(before.accepting(earlier), report, after)
    } else {
        after == before.accepting(earlier).accepting(report)
    }
}

/// One alias has been visited.
pub open spec fn alias_visited(
    before: ScriptView,
    table: RegistryKey,
    key: RegistryKey,
    line: LineView,
    step: AliasStep,
    after: ScriptView,
    res: Result<bool, Fault>,
) -> bool {
    &&& after == (ScriptView {
        outbox: after.outbox,
        ..after_ops(before, step.ops(table, key, line))
    })
    &&& told(before.outbox, Seq::empty(), step.report(line), after.outbox, step.fault(line))
    &&& match res {
        Ok(called) => step.fault(line) is None && called == (step.captures(line) is Some),
        Err(fault) => step.fault(line) == Some(fault@),
    }
}

/// The aliases that were there at first have been visited in the order of their keys,
/// up to the first that stopped the visits.
pub open spec fn aliases_checked(
    before: ScriptView,
    line: LineView,
    listed: Result<(RegistryKey, Seq<RegistryKey>), Seq<char>>,
    steps: Seq<AliasStep>,
    after: ScriptView,
    res: Result<bool, Fault>,
) -> bool {
    let list = LuaOp::Keys { name: ALIAS_TABLE@, outcome: listed };
    match listed {
        Err(message) => {
            &&& after == after_ops(before, seq![list])
            &&& res matches Err(fault) && fault@ == FaultView::Script(message)
        },
        Ok((table, keys)) => {
            let ops = seq![list] + alias_ops(table, keys, line, steps);
            &&& steps.len() <= keys.len()
            &&& forall|i: int|
                0 <= i < steps.len() - 1 ==> (#[trigger] steps[i]).fault(line) is None
            &&& after == (ScriptView { outbox: after.outbox, ..after_ops(before, ops) })
            &&& match res {
                Ok(called) => {
                    &&& steps.len() == keys.len()
                    &&& steps.len() > 0 ==> steps.last().fault(line) is None
                    &&& called == alias_called(line, steps)
                    &&& after.outbox == before.outbox.accepting(alias_reports(line, steps))
                },
                Err(fault) => {
                    &&& steps.len() > 0
                    &&& steps.last().fault(line) == Some(fault@)
                    &&& told(
                        before.outbox,
                        alias_reports(line, steps.drop_last()),
                        steps.last().report(line),
                        after.outbox,
                        Some(fault@),
                    )
                },
            }
        },
    }
}

/// How a visit to a trigger went: what was read under its key, and, if it was to be
/// called, how that went, whether nobody was there to be told of an error, and how
/// reading and clearing the flag went by which a callback hides the line.
pub ghost struct TriggerStep {
    pub read: Result<Option<TriggerView>, Seq<char>>,
    pub called: Result<Result<(), Seq<char>>, Seq<char>>,
    pub closed: bool,
    pub flag: Result<bool, Seq<char>>,
    pub cleared: Result<(), Seq<char>>,
}

impl TriggerStep {
    /// What the callback gets, if it is called.
    pub open spec fn captures(self, line: LineView) -> Option<Seq<Seq<char>>> {
        match self.read {
            Ok(Some(trigger)) => trigger.captures(line),
            _ => None,
        }
    }

    /// Whether the trigger itself hides the line.
    pub open spec fn gags(self) -> bool {
        match self.read {
            Ok(Some(trigger)) => trigger.gag,
            _ => false,
        }
    }

    /// Nothing keeps the client from what it does once the callback has run.
    pub open spec fn goes_on(self) -> bool {
        match self.called {
            Ok(Ok(())) => true,
            Ok(Err(_)) => !self.closed,
            Err(_) => false,
        }
    }

    /// What is asked of the interpreter once the callback has run: whether the
    /// callback hides the line, which matters only if the trigger does not, and
    /// that the next callback starts afresh.
    pub open spec fn flag_ops(self) -> Seq<LuaOp> {
        let clear = LuaOp::SetFlag {
            name: GAG_NEXT_TRIGGER_LINE@,
            value: false,
            outcome: self.cleared,
        };
        let look = LuaOp::GetFlag { name: GAG_NEXT_TRIGGER_LINE@, outcome: self.flag };
        if !self.goes_on() {
            Seq::empty()
        } else if self.gags() {
            seq![clear]
        } else if self.flag is Ok {
            seq![look, clear]
        } else {
            seq![look]
        }
    }

    /// What is asked of the interpreter.
    pub open spec fn ops(self, table: RegistryKey, key: RegistryKey, line: LineView) -> Seq<LuaOp> {
        let read = LuaOp::ReadTrigger { table, key, outcome: self.read };
        match self.captures(line) {
            Some(captures) => seq![
                read,
                LuaOp::CallTrigger { table, key, captures, outcome: self.called },
            ] + self.flag_ops(),
            None => seq![read],
        }
    }

    /// What the user is told.
    pub open spec fn report(self, line: LineView) -> Seq<EventView> {
        match (self.captures(line), self.called) {
            (Some(_), Ok(Err(message))) => error_report(message),
            _ => Seq::empty(),
        }
    }

    /// What stops the visits, if anything.
    pub open spec fn fault(self, line: LineView) -> Option<FaultView> {
        match self.read {
            Err(message) => Some(FaultView::Script(message)),
            Ok(_) => if self.captures(line) is None {
                None
            } else {
                match self.called {
                    Err(message) => Some(FaultView::Script(message)),
                    Ok(Err(_)) if self.closed => Some(FaultView::Closed),
                    Ok(_) => if !self.gags() && self.flag is Err {
                        Some(FaultView::Script(self.flag->Err_0))
                    } else if self.cleared is Err {
                        Some(FaultView::Script(self.cleared->Err_0))
                    } else {
                        None
                    },
                }
            },
        }
    }

    /// Whether the line is hidden once the callback has run: it is up to the trigger,
    /// and then to the callback. Where that cannot be found out, nothing changes.
    pub open spec fn hides(self, before: bool) -> bool {
        if self.gags() {
            true
        } else {
            match self.flag {
                Ok(flag) => flag,
                Err(_) => before,
            }
        }
    }

    /// The flags of the line once the trigger has been visited: it is marked once
    /// the callback has run.
    pub open spec fn flags(self, line: LineView, flags: Flags) -> Flags {
        if self.captures(line) is Some && self.goes_on() {
            Flags { matched: true, gag: self.hides(flags.gag), ..flags }
        } else {
            flags
        }
    }
}

/// What visits to the entries of `table` under `keys` ask of the interpreter.
pub open spec fn trigger_ops(
    table: RegistryKey,
    keys: Seq<RegistryKey>,
    line: LineView,
    steps: Seq<TriggerStep>,
) -> Seq<LuaOp>
    decreases steps.len(),
{
    if steps.len() == 0 {
        Seq::empty()
    } else {
        trigger_ops(table, keys, line, steps.drop_last()) + steps.last().ops(
            table,
            keys[steps.len() - 1],
            line,
        )
    }
}

/// What the user is told during the visits.
pub open spec fn trigger_reports(line: LineView, steps: Seq<TriggerStep>) -> Seq<EventView>
    decreases steps.len(),
{
    if steps.len() == 0 {
        Seq::empty()
    } else {
        trigger_reports(line, steps.drop_last()) + steps.last().report(line)
    }
}

/// Whether a callback was called during the visits.
pub open spec fn trigger_called(line: LineView, steps: Seq<TriggerStep>) -> bool {
    exists|i: int| 0 <= i < steps.len() && (#[trigger] steps[i]).captures(line) is Some
}

/// The flags of the line after the visits.
pub open spec fn trigger_flags(line: LineView, steps: Seq<TriggerStep>) -> Flags
    decreases steps.len(),
{
    if steps.len() == 0 {
        line.flags
    } else {
        steps.last().flags(line, trigger_flags(line, steps.drop_last()))
    }
}

/// One trigger has been visited.
pub open spec fn trigger_visited(
    before: ScriptView,
    table: RegistryKey,
    key: RegistryKey,
    line: LineView,
    step: TriggerStep,
    after: ScriptView,
    line_after: LineView,
    res: Result<(), Fault>,
) -> bool {
    &&& after == (ScriptView {
        outbox: after.outbox,
        ..after_ops(before, step.ops(table, key, line))
    })
    &&& told(before.outbox, Seq::empty(), step.report(line), after.outbox, step.fault(line))
    &&& line_after == (LineView { flags: step.flags(line, line.flags), ..line })
    &&& match res {
        Ok(()) => step.fault(line) is None,
        Err(fault) => step.fault(line) == Some(fault@),
    }
}

/// The triggers that were in the table in the global `name` at first have been visited
/// in the order of their keys, up to the first that stopped the visits.
pub open spec fn triggers_checked(
    before: ScriptView,
    name: Seq<char>,
    line: LineView,
    listed: Result<(RegistryKey, Seq<RegistryKey>), Seq<char>>,
    steps: Seq<TriggerStep>,
    after: ScriptView,
    line_after: LineView,
    res: Result<(), Fault>,
) -> bool {
    let list = LuaOp::Keys { name, outcome: listed };
    &&& match listed {
        Err(message) => {
            &&& after == after_ops(before, seq![list])
            &&& line_after == line
            &&& res matches Err(fault) && fault@ == FaultView::Script(message)
        },
        Ok((table, keys)) => {
            let ops = seq![list] + trigger_ops(table, keys, line, steps);
            &&& line_after == (LineView { flags: trigger_flags(line, steps), ..line })
            &&& steps.len() <= keys.len()
            &&& forall|i: int|
                0 <= i < steps.len() - 1 ==> (#[trigger] steps[i]).fault(line) is None
            &&& after == (ScriptView { outbox: after.outbox, ..after_ops(before, ops) })
            &&& match res {
                Ok(()) => {
                    &&& steps.len() == keys.len()
                    &&& steps.len() > 0 ==> steps.last().fault(line) is None
                    &&& after.outbox == before.outbox.accepting(trigger_reports(line, steps))
                },
                Err(fault) => {
                    &&& steps.len() > 0
                    &&& steps.last().fault(line) == Some(fault@)
                    &&& told(
                        before.outbox,
                        trigger_reports(line, steps.drop_last()),
                        steps.last().report(line),
                        after.outbox,
                        Some(fault@),
                    )
                },
            }
        },
    }
}

} // verus!
