//! What always holds of a script state.

use super::constants::{GAG_NEXT_TRIGGER_LINE, ON_CONNCTION_CALLBACK, ON_GMCP_READY_CALLBACK};
use super::effects::{
    alias_called, alias_ops, call_ops, connection_told, gmcp_readiness_told, hook_called,
    state_reset, trigger_called, trigger_flags, trigger_ops, trigger_reports, triggers_checked,
    AliasStep, ScriptView, TriggerStep,
};
use super::interpreter::{LuaArgs, LuaOp};
use crate::event::{EventView, Fault};
use crate::line::LineView;
use rlua::RegistryKey;
use vstd::prelude::*;

verus! {

/// Scripts hear of a connection once: whatever comes of the first one, another one
/// leaves everything as it is.
pub proof fn law_connection_is_told_once(
    before: ScriptView,
    host: Seq<char>,
    port: u16,
    between: ScriptView,
    first: Result<(), Fault>,
    other_host: Seq<char>,
    other_port: u16,
    after: ScriptView,
    second: Result<(), Fault>,
)
    requires
        connection_told(before, host, port, between, first),
        connection_told(between, other_host, other_port, after, second),
    ensures
        between.connected,
        after == between,
        second is Ok,
{
}

/// Scripts hear once that the server talks GMCP.
pub proof fn law_gmcp_readiness_is_told_once(
    before: ScriptView,
    between: ScriptView,
    first: Result<(), Fault>,
    after: ScriptView,
    second: Result<(), Fault>,
)
    requires
        gmcp_readiness_told(before, between, first),
        gmcp_readiness_told(between, after, second),
    ensures
        between.gmcp_ready,
        after == between,
        second is Ok,
{
}

/// After a reset scripts hear of a connection again, even if they had heard of one
/// before.
pub proof fn law_reset_lets_connections_be_told(
    before: ScriptView,
    dimensions: (u16, u16),
    between: ScriptView,
    reset: Result<(), Fault>,
    host: Seq<char>,
    port: u16,
    after: ScriptView,
    told: Result<(), Fault>,
)
    requires
        state_reset(before, dimensions, between, reset),
        connection_told(between, host, port, after, told),
    ensures
        exists|found: Option<RegistryKey>, called: Result<(), Seq<char>>|
            after.history == between.history + #[trigger] call_ops(
                LuaOp::FindGlobal { name: ON_CONNCTION_CALLBACK@, found },
                found,
                LuaArgs::Address(host, port),
                called,
            ),
{
    let (found, called) = choose|found: Option<RegistryKey>, called: Result<(), Seq<char>>|
        #[trigger]
        hook_called(
            ScriptView { connected: true, ..between },
            ON_CONNCTION_CALLBACK@,
            LuaArgs::Address(host, port),
            found,
            called,
            after,
            told,
        );
    assert(after.history == between.history + call_ops(
        LuaOp::FindGlobal { name: ON_CONNCTION_CALLBACK@, found },
        found,
        LuaArgs::Address(host, port),
        called,
    ));
}

/// After a reset scripts hear again that the server talks GMCP.
pub proof fn law_reset_lets_gmcp_readiness_be_told(
    before: ScriptView,
    dimensions: (u16, u16),
    between: ScriptView,
    reset: Result<(), Fault>,
    after: ScriptView,
    told: Result<(), Fault>,
)
    requires
        state_reset(before, dimensions, between, reset),
        gmcp_readiness_told(between, after, told),
    ensures
        exists|found: Option<RegistryKey>, called: Result<(), Seq<char>>|
            after.history == between.history + #[trigger] call_ops(
                LuaOp::FindGlobal { name: ON_GMCP_READY_CALLBACK@, found },
                found,
                LuaArgs::Nothing,
                called,
            ),
{
    let (found, called) = choose|found: Option<RegistryKey>, called: Result<(), Seq<char>>|
        #[trigger]
        hook_called(
            ScriptView { gmcp_ready: true, ..between },
            ON_GMCP_READY_CALLBACK@,
            LuaArgs::Nothing,
            found,
            called,
            after,
            told,
        );
    assert(after.history == between.history + call_ops(
        LuaOp::FindGlobal { name: ON_GMCP_READY_CALLBACK@, found },
        found,
        LuaArgs::Nothing,
        called,
    ));
}

/// A callback was called during the visits if it was during the earlier ones or the last.
pub proof fn lemma_called_so_far(line: LineView, steps: Seq<TriggerStep>)
    requires
        steps.len() > 0,
    ensures
        trigger_called(line, steps) == (trigger_called(line, steps.drop_last())
            || steps.last().captures(line) is Some),
{
    let front = steps.drop_last();
    if trigger_called(line, front) {
        let i = choose|i: int|
            0 <= i < front.len() && (#[trigger] front[i]).captures(line) is Some;
        assert(steps[i].captures(line) is Some);
    }
    if trigger_called(line, steps) {
        let i = choose|i: int|
            0 <= i < steps.len() && (#[trigger] steps[i]).captures(line) is Some;
        if i < front.len() {
            assert(front[i].captures(line) is Some);
        }
    }
    assert(steps[steps.len() - 1] == steps.last());
}

/// Where nothing stops the visits, a line is marked as matched exactly if it was so
/// before or a callback was called for it.
pub proof fn law_matched_means_called(line: LineView, steps: Seq<TriggerStep>)
    requires
        forall|i: int| 0 <= i < steps.len() ==> (#[trigger] steps[i]).fault(line) is None,
    ensures
        trigger_flags(line, steps).matched == (line.flags.matched || trigger_called(line, steps)),
        trigger_flags(line, steps).bypass_script == line.flags.bypass_script,
    decreases steps.len(),
{
    if steps.len() > 0 {
        let front = steps.drop_last();
        assert forall|i: int| 0 <= i < front.len() implies (
        #[trigger] front[i]).fault(line) is None by {
            assert(steps[i].fault(line) is None);
        }
        law_matched_means_called(line, front);
        lemma_called_so_far(line, steps);
        assert(steps[steps.len() - 1].fault(line) is None);
    }
}

/// Where nothing stops it, whether a line is hidden is up to the last trigger that
/// was called for it: the trigger itself, or its callback.
pub proof fn law_last_called_trigger_decides(line: LineView, steps: Seq<TriggerStep>, last: int)
    requires
        0 <= last < steps.len(),
        steps[last].captures(line) is Some,
        steps[last].fault(line) is None,
        forall|i: int|
            last < i < steps.len() ==> (#[trigger] steps[i]).captures(line) is None,
    ensures
        trigger_flags(line, steps).gag == (steps[last].gags() || steps[last].flag->Ok_0),
    decreases steps.len(),
{
    if last < steps.len() - 1 {
        let front = steps.drop_last();
        assert(steps[steps.len() - 1].captures(line) is None);
        assert forall|i: int| last < i < front.len() implies (
        #[trigger] front[i]).captures(line) is None by {
            assert(steps[i].captures(line) is None);
        }
        law_last_called_trigger_decides(line, front, last);
    }
}

/// A callback that hides a line hides no other: whenever a callback has been called
/// and nothing went wrong beside it, the flag it may have set is cleared last.
pub proof fn law_flag_is_cleared(
    step: TriggerStep,
    table: RegistryKey,
    key: RegistryKey,
    line: LineView,
)
    requires
        step.captures(line) is Some,
        step.fault(line) is None,
    ensures
        step.ops(table, key, line).last() == (LuaOp::SetFlag {
            name: GAG_NEXT_TRIGGER_LINE@,
            value: false,
            outcome: step.cleared,
        }),
        step.cleared is Ok,
{
}

/// What the flag by which a callback hides a line was last made by the client, as far
/// as these operations tell.
pub open spec fn last_flag(ops: Seq<LuaOp>) -> Option<bool>
    decreases ops.len(),
{
    if ops.len() == 0 {
        None
    } else {
        match ops.last() {
            LuaOp::SetFlag { name, value, outcome: Ok(()) } if name == GAG_NEXT_TRIGGER_LINE@ => {
                Some(value)
            },
            _ => last_flag(ops.drop_last()),
        }
    }
}

/// From some operation on, whenever the flag is read it is what the client last made
/// it: no callback has asked to hide a line since.
pub open spec fn nobody_hides(history: Seq<LuaOp>, from: int) -> bool {
    forall|i: int| #![trigger history[i]]
        from <= i < history.len() ==> match (history[i], last_flag(history.take(i))) {
            (LuaOp::GetFlag { name, outcome }, Some(value)) => name == GAG_NEXT_TRIGGER_LINE@
                ==> outcome == Ok::<bool, Seq<char>>(value),
            _ => true,
        }
}

proof fn lemma_last_flag_of_concatenation(a: Seq<LuaOp>, b: Seq<LuaOp>)
    ensures
        last_flag(a + b) == match last_flag(b) {
            Some(value) => Some(value),
            None => last_flag(a),
        },
    decreases b.len(),
{
    if b.len() == 0 {
        assert(a + b =~= a);
    } else {
        lemma_last_flag_of_concatenation(a, b.drop_last());
        assert((a + b).drop_last() =~= a + b.drop_last());
        assert((a + b).last() == b.last());
    }
}

/// What visits to triggers leave of the flag.
proof fn lemma_last_flag_of_triggers(
    table: RegistryKey,
    keys: Seq<RegistryKey>,
    line: LineView,
    steps: Seq<TriggerStep>,
)
    requires
        forall|i: int| 0 <= i < steps.len() ==> (#[trigger] steps[i]).fault(line) is None,
    ensures
        last_flag(trigger_ops(table, keys, line, steps)) == if trigger_called(line, steps) {
            Some(false)
        } else {
            None
        },
    decreases steps.len(),
{
    if steps.len() > 0 {
        let front = steps.drop_last();
        let n = steps.len() - 1;
        let ops = steps.last().ops(table, keys[n], line);
        assert forall|i: int| 0 <= i < front.len() implies (
        #[trigger] front[i]).fault(line) is None by {
            assert(steps[i].fault(line) is None);
        }
        lemma_last_flag_of_triggers(table, keys, line, front);
        lemma_last_flag_of_concatenation(trigger_ops(table, keys, line, front), ops);
        lemma_called_so_far(line, steps);
        assert(steps[n].fault(line) is None);
        if steps.last().captures(line) is Some {
            law_flag_is_cleared(steps.last(), table, keys[n], line);
        } else {
            reveal_with_fuel(last_flag, 2);
            assert(ops.drop_last() =~= Seq::empty());
        }
    }
}

/// Where nobody asks to hide a line, no trigger hides one but by itself.
proof fn lemma_nobody_hides(
    before: Seq<LuaOp>,
    table: RegistryKey,
    keys: Seq<RegistryKey>,
    line: LineView,
    steps: Seq<TriggerStep>,
)
    requires
        last_flag(before) == Some(false),
        nobody_hides(before + trigger_ops(table, keys, line, steps), before.len() as int),
        forall|i: int| 0 <= i < steps.len() ==> (#[trigger] steps[i]).fault(line) is None,
        forall|i: int|
            0 <= i < steps.len() && (#[trigger] steps[i]).captures(line) is Some
                ==> !steps[i].gags(),
    ensures
        trigger_flags(line, steps).gag == (line.flags.gag && !trigger_called(line, steps)),
    decreases steps.len(),
{
    if steps.len() > 0 {
        let front = steps.drop_last();
        let n = steps.len() - 1;
        let step = steps.last();
        let all = before + trigger_ops(table, keys, line, steps);
        let done = before + trigger_ops(table, keys, line, front);
        assert(steps[n] == step);
        assert(all =~= done + step.ops(table, keys[n], line));
        assert forall|i: int| 0 <= i < front.len() implies (
        #[trigger] front[i]).fault(line) is None && (front[i].captures(line) is Some
            ==> !front[i].gags()) by {
            assert(steps[i] == front[i]);
        }
        assert forall|i: int| #![trigger done[i]] before.len() <= i < done.len() implies match (
            done[i],
            last_flag(done.take(i)),
        ) {
            (LuaOp::GetFlag { name, outcome }, Some(value)) => name == GAG_NEXT_TRIGGER_LINE@
                ==> outcome == Ok::<bool, Seq<char>>(value),
            _ => true,
        } by {
            assert(all[i] == done[i]);
            assert(all.take(i) =~= done.take(i));
        }
        lemma_nobody_hides(before, table, keys, line, front);
        lemma_called_so_far(line, steps);
        if let Some(captures) = step.captures(line) {
            let read = LuaOp::ReadTrigger { table, key: keys[n], outcome: step.read };
            let called = LuaOp::CallTrigger {
                table,
                key: keys[n],
                captures,
                outcome: step.called,
            };
            let at: int = done.len() as int + 2;
            assert(step.flag_ops()[0] == (LuaOp::GetFlag {
                name: GAG_NEXT_TRIGGER_LINE@,
                outcome: step.flag,
            }));
            assert(all[at] == step.flag_ops()[0]);
            assert(all.take(at) =~= done + seq![read, called]);
            lemma_last_flag_of_triggers(table, keys, line, front);
            lemma_last_flag_of_concatenation(before, trigger_ops(table, keys, line, front));
            lemma_last_flag_of_concatenation(done, seq![read, called]);
            reveal_with_fuel(last_flag, 3);
            assert(seq![read, called].drop_last() =~= seq![read]);
            assert(seq![read].drop_last() =~= Seq::empty());
            assert(last_flag(all.take(at)) == Some(false));
            assert(step.flag == Ok::<bool, Seq<char>>(false));
        }
    }
}

/// A request to hide a line is used up by the first trigger that is called after it,
/// and never reaches a later line: once a trigger has been called for one line and
/// nobody asks again, another line is hidden only by a trigger that hides it itself,
/// however many lines are checked in between. The flag is off after either check.
pub proof fn law_hiding_reaches_no_later_line(
    before: ScriptView,
    first_name: Seq<char>,
    first: LineView,
    first_listed: Result<(RegistryKey, Seq<RegistryKey>), Seq<char>>,
    first_steps: Seq<TriggerStep>,
    between: ScriptView,
    first_after: LineView,
    idle: Seq<LuaOp>,
    middle: ScriptView,
    name: Seq<char>,
    line: LineView,
    listed: Result<(RegistryKey, Seq<RegistryKey>), Seq<char>>,
    steps: Seq<TriggerStep>,
    after: ScriptView,
    line_after: LineView,
)
    requires
        triggers_checked(
            before,
            first_name,
            first,
            first_listed,
            first_steps,
            between,
            first_after,
            Ok(()),
        ),
        trigger_called(first, first_steps),
        middle.history == between.history + idle,
        last_flag(idle) != Some(true),
        triggers_checked(middle, name, line, listed, steps, after, line_after, Ok(())),
        nobody_hides(after.history, between.history.len() as int),
        forall|i: int|
            0 <= i < steps.len() && (#[trigger] steps[i]).captures(line) is Some
                ==> !steps[i].gags(),
    ensures
        trigger_called(line, steps) ==> !line_after.flags.gag,
        !trigger_called(line, steps) ==> line_after.flags.gag == line.flags.gag,
        last_flag(between.history) == Some(false),
        last_flag(after.history) == Some(false),
{
    let (first_table, first_keys) = first_listed->Ok_0;
    let first_list = LuaOp::Keys { name: first_name, outcome: first_listed };
    let first_ops = trigger_ops(first_table, first_keys, first, first_steps);
    assert forall|i: int| 0 <= i < first_steps.len() implies (
    #[trigger] first_steps[i]).fault(first) is None by {
        assert(first_steps.last() == first_steps[first_steps.len() - 1]);
    }
    lemma_last_flag_of_triggers(first_table, first_keys, first, first_steps);
    lemma_last_flag_of_concatenation(seq![first_list], first_ops);
    lemma_last_flag_of_concatenation(before.history, seq![first_list] + first_ops);
    lemma_last_flag_of_concatenation(between.history, idle);

    let (table, keys) = listed->Ok_0;
    let list = LuaOp::Keys { name, outcome: listed };
    let start = middle.history + seq![list];
    let ops = trigger_ops(table, keys, line, steps);
    reveal_with_fuel(last_flag, 2);
    assert(seq![list].drop_last() =~= Seq::empty());
    lemma_last_flag_of_concatenation(middle.history, seq![list]);
    assert(after.history =~= start + ops);
    assert forall|i: int| 0 <= i < steps.len() implies (
    #[trigger] steps[i]).fault(line) is None by {
        assert(steps.last() == steps[steps.len() - 1]);
    }
    lemma_nobody_hides(start, table, keys, line, steps);
    lemma_last_flag_of_triggers(table, keys, line, steps);
    lemma_last_flag_of_concatenation(start, ops);
}

/// A trigger that is turned off is never called, whatever the line says.
pub proof fn law_disabled_trigger_is_not_called(
    step: TriggerStep,
    table: RegistryKey,
    key: RegistryKey,
    line: LineView,
)
    requires
        step.read matches Ok(Some(trigger)) && !trigger.enabled,
    ensures
        step.ops(table, key, line) == seq![
            LuaOp::ReadTrigger { table, key, outcome: step.read },
        ],
        step.flags(line, line.flags) == line.flags,
        step.report(line) == Seq::<EventView>::empty(),
{
}

/// An alias that is turned off is never called, whatever the user typed.
pub proof fn law_disabled_alias_is_not_called(
    step: AliasStep,
    table: RegistryKey,
    key: RegistryKey,
    line: LineView,
)
    requires
        step.read matches Ok(Some(alias)) && !alias.enabled,
    ensures
        !alias_called(line, seq![step]),
        step.ops(table, key, line).len() == 1,
        step.report(line) == Seq::<EventView>::empty(),
{
    assert(step.captures(line) is None);
    assert(seq![step][0] == step);
}

/// A line that no trigger matches stays as it is, and nobody is told anything.
pub proof fn law_unmatched_line_is_left_alone(line: LineView, steps: Seq<TriggerStep>)
    requires
        forall|i: int| 0 <= i < steps.len() ==> (#[trigger] steps[i]).captures(line) is None,
    ensures
        trigger_flags(line, steps) == line.flags,
        trigger_reports(line, steps) == Seq::<EventView>::empty(),
    decreases steps.len(),
{
    if steps.len() > 0 {
        let front = steps.drop_last();
        assert(steps[steps.len() - 1].captures(line) is None);
        assert forall|i: int| 0 <= i < front.len() implies (
        #[trigger] front[i]).captures(line) is None by {
            assert(steps[i].captures(line) is None);
        }
        law_unmatched_line_is_left_alone(line, front);
        assert(trigger_reports(line, steps) =~= Seq::empty());
    }
}

/// The keys of the aliases and triggers that operations have read, in order.
pub open spec fn keys_read(ops: Seq<LuaOp>) -> Seq<RegistryKey>
    decreases ops.len(),
{
    if ops.len() == 0 {
        Seq::empty()
    } else {
        let before = keys_read(ops.drop_last());
        match ops.last() {
            LuaOp::ReadAlias { key, .. } => before.push(key),
            LuaOp::ReadTrigger { key, .. } => before.push(key),
            _ => before,
        }
    }
}

proof fn lemma_keys_read_of_concatenation(a: Seq<LuaOp>, b: Seq<LuaOp>)
    ensures
        keys_read(a + b) == keys_read(a) + keys_read(b),
    decreases b.len(),
{
    if b.len() == 0 {
        assert(a + b =~= a);
        assert(keys_read(a) + keys_read(b) =~= keys_read(a));
    } else {
        lemma_keys_read_of_concatenation(a, b.drop_last());
        assert((a + b).drop_last() =~= a + b.drop_last());
        assert(keys_read(a + b) =~= keys_read(a) + keys_read(b));
    }
}

proof fn lemma_keys_read_of_alias(
    step: AliasStep,
    table: RegistryKey,
    key: RegistryKey,
    line: LineView,
)
    ensures
        keys_read(step.ops(table, key, line)) == seq![key],
{
    let ops = step.ops(table, key, line);
    reveal_with_fuel(keys_read, 3);
    if ops.len() == 2 {
        assert(ops.drop_last().drop_last() =~= Seq::empty());
        assert(ops.drop_last().last() == ops[0]);
    } else {
        assert(ops.drop_last() =~= Seq::empty());
    }
    assert(keys_read(ops) =~= seq![key]);
}

proof fn lemma_keys_read_of_trigger(
    step: TriggerStep,
    table: RegistryKey,
    key: RegistryKey,
    line: LineView,
)
    ensures
        keys_read(step.ops(table, key, line)) == seq![key],
{
    let read = LuaOp::ReadTrigger { table, key, outcome: step.read };
    reveal_with_fuel(keys_read, 3);
    assert(seq![read].drop_last() =~= Seq::empty());
    assert(keys_read(seq![read]) =~= seq![key]);
    if let Some(captures) = step.captures(line) {
        let called = LuaOp::CallTrigger { table, key, captures, outcome: step.called };
        let flags = step.flag_ops();
        assert(seq![read, called].drop_last() =~= seq![read]);
        lemma_keys_read_of_concatenation(seq![read, called], flags);
        if flags.len() == 2 {
            assert(flags.drop_last().drop_last() =~= Seq::empty());
            assert(flags.drop_last().last() == flags[0]);
        } else if flags.len() == 1 {
            assert(flags.drop_last() =~= Seq::empty());
        }
        assert(keys_read(flags) =~= Seq::empty());
        assert(keys_read(step.ops(table, key, line)) =~= seq![key]);
    }
}

/// Every alias is looked at, once and in the order of the keys, whether or not
/// another one has been called before it.
pub proof fn law_every_alias_is_visited(
    table: RegistryKey,
    keys: Seq<RegistryKey>,
    line: LineView,
    steps: Seq<AliasStep>,
)
    requires
        steps.len() <= keys.len(),
    ensures
        keys_read(alias_ops(table, keys, line, steps)) == keys.take(steps.len() as int),
    decreases steps.len(),
{
    if steps.len() > 0 {
        let n = steps.len() - 1;
        law_every_alias_is_visited(table, keys, line, steps.drop_last());
        lemma_keys_read_of_concatenation(
            alias_ops(table, keys, line, steps.drop_last()),
            steps.last().ops(table, keys[n], line),
        );
        lemma_keys_read_of_alias(steps.last(), table, keys[n], line);
    }
    assert(keys_read(alias_ops(table, keys, line, steps)) =~= keys.take(steps.len() as int));
}

/// Every trigger is looked at, once and in the order of the keys, whether or not
/// another one has been called before it.
pub proof fn law_every_trigger_is_visited(
    table: RegistryKey,
    keys: Seq<RegistryKey>,
    line: LineView,
    steps: Seq<TriggerStep>,
)
    requires
        steps.len() <= keys.len(),
    ensures
        keys_read(trigger_ops(table, keys, line, steps)) == keys.take(steps.len() as int),
    decreases steps.len(),
{
    if steps.len() > 0 {
        let n = steps.len() - 1;
        law_every_trigger_is_visited(table, keys, line, steps.drop_last());
        lemma_keys_read_of_concatenation(
            trigger_ops(table, keys, line, steps.drop_last()),
            steps.last().ops(table, keys[n], line),
        );
        lemma_keys_read_of_trigger(steps.last(), table, keys[n], line);
    }
    assert(keys_read(trigger_ops(table, keys, line, steps)) =~= keys.take(steps.len() as int));
}

} // verus!
