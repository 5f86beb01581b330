//! What checking a line against aliases and triggers does, told by the record alone:
//! which entries are called, with what, and what comes of it.

use super::constants::{ALIAS_TABLE, GAG_NEXT_TRIGGER_LINE};
use super::effects::{
    alias_called, alias_ops, alias_reports, aliases_checked, trigger_called, trigger_flags,
    trigger_ops, trigger_reports, triggers_checked, AliasStep, ScriptView, TriggerStep,
};
use super::interpreter::LuaOp;
use super::laws::{
    keys_read, law_every_alias_is_visited, law_every_trigger_is_visited, law_matched_means_called,
    lemma_called_so_far,
};
use super::matcher::{
    law_alias_is_held_against_the_line, law_trigger_is_held_against_the_line, regex_captures,
};
use super::record::refusal_of;
use crate::event::{error_report, law_cut_short_is_a_prefix, EventView, Fault, FaultView};
use crate::line::LineView;
use rlua::RegistryKey;
use vstd::prelude::*;

verus! {

/// `captures` are the texts of the groups that were found: one for each, and an empty
/// one only for a group that took no part in the match.
pub open spec fn groups_given(
    found: Option<Seq<Option<Seq<char>>>>,
    captures: Seq<Seq<char>>,
) -> bool {
    &&& found matches Some(groups)
    &&& captures.len() == groups.len()
    &&& forall|i: int|
        0 <= i < groups.len() ==> #[trigger] captures[i] == match groups[i] {
            Some(text) => text,
            None => Seq::<char>::empty(),
        }
}

/// An alias is called right after it was read, and exactly if it is enabled and its
/// pattern matches in the clean line. It is called with the groups of the match.
pub open spec fn right_aliases_are_called(ops: Seq<LuaOp>, line: LineView) -> bool {
    forall|q: int| #![trigger ops[q]]
        0 <= q < ops.len() ==> match ops[q] {
            LuaOp::CallAlias { table, key, captures, .. } => {
                &&& q > 0
                &&& ops[q - 1] matches LuaOp::ReadAlias { table: t, key: k, outcome }
                &&& t == table && k == key
                &&& outcome matches Ok(Some(alias))
                &&& alias.enabled
                &&& groups_given(regex_captures(alias.pattern, line.clean_line), captures)
            },
            LuaOp::ReadAlias { table, key, outcome: Ok(Some(alias)) } => {
                alias.enabled && regex_captures(alias.pattern, line.clean_line) is Some ==> {
                    &&& q + 1 < ops.len()
                    &&& ops[q + 1] matches LuaOp::CallAlias { table: t, key: k, .. }
                    &&& t == table && k == key
                }
            },
            _ => true,
        }
}

/// A trigger is called right after it was read, and exactly if it is enabled and its
/// pattern matches in the line, with escape sequences if it is raw and without them if
/// not. It is called with the groups of the match.
pub open spec fn right_triggers_are_called(ops: Seq<LuaOp>, line: LineView) -> bool {
    forall|q: int| #![trigger ops[q]]
        0 <= q < ops.len() ==> match ops[q] {
            LuaOp::CallTrigger { table, key, captures, .. } => {
                &&& q > 0
                &&& ops[q - 1] matches LuaOp::ReadTrigger { table: t, key: k, outcome }
                &&& t == table && k == key
                &&& outcome matches Ok(Some(trigger))
                &&& trigger.enabled
                &&& groups_given(
                    regex_captures(
                        trigger.pattern,
                        if trigger.raw {
                            line.line
                        } else {
                            line.clean_line
                        },
                    ),
                    captures,
                )
            },
            LuaOp::ReadTrigger { table, key, outcome: Ok(Some(trigger)) } => {
                trigger.enabled && regex_captures(
                    trigger.pattern,
                    if trigger.raw {
                        line.line
                    } else {
                        line.clean_line
                    },
                ) is Some ==> {
                    &&& q + 1 < ops.len()
                    &&& ops[q + 1] matches LuaOp::CallTrigger { table: t, key: k, .. }
                    &&& t == table && k == key
                }
            },
            _ => true,
        }
}

/// The reports of the callbacks that ended in an error, in order.
pub open spec fn reports_of(ops: Seq<LuaOp>) -> Seq<EventView>
    decreases ops.len(),
{
    if ops.len() == 0 {
        Seq::empty()
    } else {
        let before = reports_of(ops.drop_last());
        match ops.last() {
            LuaOp::CallAlias { outcome: Ok(Err(message)), .. } => before + error_report(message),
            LuaOp::CallTrigger { outcome: Ok(Err(message)), .. } => before + error_report(message),
            _ => before,
        }
    }
}

/// Whether the operations call a callback.
pub open spec fn calls(ops: Seq<LuaOp>) -> bool {
    exists|q: int| 0 <= q < ops.len() && ((#[trigger] ops[q]) is CallAlias || ops[q] is CallTrigger)
}

/// Whether a line is hidden after the operations, if it was `hidden` before: the last
/// trigger that was called decides, by itself or by what its callback made the flag.
pub open spec fn hidden_after(ops: Seq<LuaOp>, hidden: bool) -> bool
    decreases ops.len(),
{
    if ops.len() == 0 {
        hidden
    } else {
        let front = ops.drop_last();
        let before = hidden_after(front, hidden);
        match ops.last() {
            LuaOp::CallTrigger { .. } => match front.last() {
                LuaOp::ReadTrigger { outcome: Ok(Some(trigger)), .. } => trigger.gag || before,
                _ => before,
            },
            LuaOp::GetFlag { outcome: Ok(value), .. } => value,
            _ => before,
        }
    }
}

/// Once a callback has run, the flag by which it may hide the line is read unless the
/// trigger hides the line anyway, and turned off in any case.
pub open spec fn flag_is_used_up(ops: Seq<LuaOp>) -> bool {
    forall|q: int| #![trigger ops[q]]
        0 < q < ops.len() && ops[q] is CallTrigger ==> {
            &&& ops[q - 1] matches LuaOp::ReadTrigger { outcome, .. }
            &&& outcome matches Ok(Some(trigger))
            &&& if trigger.gag {
                &&& q + 1 < ops.len()
                &&& ops[q + 1] matches LuaOp::SetFlag { name, value, outcome }
                &&& name == GAG_NEXT_TRIGGER_LINE@ && !value && outcome is Ok
            } else {
                &&& q + 2 < ops.len()
                &&& ops[q + 1] matches LuaOp::GetFlag { name, outcome }
                &&& name == GAG_NEXT_TRIGGER_LINE@ && outcome is Ok
                &&& ops[q + 2] matches LuaOp::SetFlag { name, value, outcome }
                &&& name == GAG_NEXT_TRIGGER_LINE@ && !value && outcome is Ok
            }
        }
}

/// Nothing is asked but to read and call entries of the table.
pub open spec fn only_aliases(ops: Seq<LuaOp>, table: RegistryKey) -> bool {
    forall|q: int| #![trigger ops[q]]
        0 <= q < ops.len() ==> match ops[q] {
            LuaOp::ReadAlias { table: t, .. } => t == table,
            LuaOp::CallAlias { table: t, .. } => t == table,
            _ => false,
        }
}

/// Nothing is asked but to read and call entries of the table, and about the flag.
pub open spec fn only_triggers(ops: Seq<LuaOp>, table: RegistryKey) -> bool {
    forall|q: int| #![trigger ops[q]]
        0 <= q < ops.len() ==> match ops[q] {
            LuaOp::ReadTrigger { table: t, .. } => t == table,
            LuaOp::CallTrigger { table: t, .. } => t == table,
            LuaOp::GetFlag { name, .. } => name == GAG_NEXT_TRIGGER_LINE@,
            LuaOp::SetFlag { name, value, .. } => name == GAG_NEXT_TRIGGER_LINE@ && !value,
            _ => false,
        }
}

proof fn lemma_reports_of_concatenation(a: Seq<LuaOp>, b: Seq<LuaOp>)
    ensures
        reports_of(a + b) == reports_of(a) + reports_of(b),
    decreases b.len(),
{
    if b.len() == 0 {
        assert(a + b =~= a);
        assert(reports_of(a) + reports_of(b) =~= reports_of(a));
    } else {
        lemma_reports_of_concatenation(a, b.drop_last());
        assert((a + b).drop_last() =~= a + b.drop_last());
        assert((a + b).last() == b.last());
        assert(reports_of(a + b) =~= reports_of(a) + reports_of(b));
    }
}

proof fn lemma_calls_of_concatenation(a: Seq<LuaOp>, b: Seq<LuaOp>)
    ensures
        calls(a + b) == (calls(a) || calls(b)),
{
    let all = a + b;
    if calls(a) {
        let q = choose|q: int|
            0 <= q < a.len() && ((#[trigger] a[q]) is CallAlias || a[q] is CallTrigger);
        assert(all[q] == a[q]);
    }
    if calls(b) {
        let q = choose|q: int|
            0 <= q < b.len() && ((#[trigger] b[q]) is CallAlias || b[q] is CallTrigger);
        assert(all[q + a.len()] == b[q]);
    }
    if calls(all) {
        let q = choose|q: int|
            0 <= q < all.len() && ((#[trigger] all[q]) is CallAlias || all[q] is CallTrigger);
        if q < a.len() {
            assert(a[q] == all[q]);
        } else {
            assert(b[q - a.len()] == all[q]);
        }
    }
}

proof fn lemma_alias_visits(
    table: RegistryKey,
    keys: Seq<RegistryKey>,
    line: LineView,
    steps: Seq<AliasStep>,
)
    ensures
        ({
            let ops = alias_ops(table, keys, line, steps);
            &&& right_aliases_are_called(ops, line)
            &&& only_aliases(ops, table)
            &&& reports_of(ops) == alias_reports(line, steps)
            &&& calls(ops) == alias_called(line, steps)
        }),
    decreases steps.len(),
{
    if steps.len() > 0 {
        let n = steps.len() - 1;
        let front = steps.drop_last();
        let step = steps.last();
        let a = alias_ops(table, keys, line, front);
        let b = step.ops(table, keys[n], line);
        let ops = a + b;
        assert(alias_ops(table, keys, line, steps) == ops);
        lemma_alias_visits(table, keys, line, front);
        lemma_reports_of_concatenation(a, b);
        lemma_calls_of_concatenation(a, b);
        if let Ok(Some(alias)) = step.read {
            law_alias_is_held_against_the_line(alias, line);
        }
        let read = LuaOp::ReadAlias { table, key: keys[n], outcome: step.read };
        assert(b[0] == read);
        reveal_with_fuel(reports_of, 3);
        assert(seq![read].drop_last() =~= Seq::empty());
        if step.captures(line) is Some {
            assert(b.drop_last() =~= seq![read]);
            assert(b[1] is CallAlias);
        }
        assert(reports_of(b) =~= step.report(line));
        assert(calls(b) == (step.captures(line) is Some));
        assert forall|q: int| #![trigger ops[q]] 0 <= q < ops.len() implies match ops[q] {
            LuaOp::CallAlias { table, key, captures, .. } => {
                &&& q > 0
                &&& ops[q - 1] matches LuaOp::ReadAlias { table: t, key: k, outcome }
                &&& t == table && k == key
                &&& outcome matches Ok(Some(alias))
                &&& alias.enabled
                &&& groups_given(regex_captures(alias.pattern, line.clean_line), captures)
            },
            LuaOp::ReadAlias { table, key, outcome: Ok(Some(alias)) } => {
                alias.enabled && regex_captures(alias.pattern, line.clean_line) is Some ==> {
                    &&& q + 1 < ops.len()
                    &&& ops[q + 1] matches LuaOp::CallAlias { table: t, key: k, .. }
                    &&& t == table && k == key
                }
            },
            _ => true,
        } by {
            if q < a.len() {
                assert(ops[q] == a[q]);
                if q > 0 {
                    assert(ops[q - 1] == a[q - 1]);
                }
                if q + 1 < a.len() {
                    assert(ops[q + 1] == a[q + 1]);
                }
            } else {
                assert(ops[q] == b[q - a.len()]);
                if q > a.len() {
                    assert(ops[q - 1] == b[q - 1 - a.len()]);
                }
                if q + 1 < ops.len() {
                    assert(ops[q + 1] == b[q + 1 - a.len()]);
                }
            }
        }
        assert forall|q: int| #![trigger ops[q]] 0 <= q < ops.len() implies match ops[q] {
            LuaOp::ReadAlias { table: t, .. } => t == table,
            LuaOp::CallAlias { table: t, .. } => t == table,
            _ => false,
        } by {
            if q < a.len() {
                assert(ops[q] == a[q]);
            } else {
                assert(ops[q] == b[q - a.len()]);
            }
        }
        lemma_alias_called_so_far(line, steps);
    }
}

proof fn lemma_alias_called_so_far(line: LineView, steps: Seq<AliasStep>)
    requires
        steps.len() > 0,
    ensures
        alias_called(line, steps) == (alias_called(line, steps.drop_last())
            || steps.last().captures(line) is Some),
{
    let front = steps.drop_last();
    if alias_called(line, front) {
        let i = choose|i: int|
            0 <= i < front.len() && (#[trigger] front[i]).captures(line) is Some;
        assert(steps[i].captures(line) is Some);
    }
    if alias_called(line, steps) {
        let i = choose|i: int|
            0 <= i < steps.len() && (#[trigger] steps[i]).captures(line) is Some;
        if i < front.len() {
            assert(front[i].captures(line) is Some);
        }
    }
    assert(steps[steps.len() - 1] == steps.last());
}

/// What the user types is held against every alias, once and in order, whatever comes of
/// the others. Exactly the enabled ones whose pattern matches in the clean line are
/// called, each with the groups of its match, and the answer is whether there was one.
/// Every error that a callback ends in is reported, and nothing else is sent.
pub proof fn law_aliases_are_checked(
    before: ScriptView,
    line: LineView,
    listed: Result<(RegistryKey, Seq<RegistryKey>), Seq<char>>,
    steps: Seq<AliasStep>,
    after: ScriptView,
    res: Result<bool, Fault>,
)
    requires
        aliases_checked(before, line, listed, steps, after, res),
    ensures
        ({
            let n = before.history.len() as int;
            let ops = after.history.skip(n + 1);
            &&& after.history.len() > n
            &&& after.history.take(n) == before.history
            &&& after.history[n] == (LuaOp::Keys { name: ALIAS_TABLE@, outcome: listed })
            &&& listed matches Err(message) ==> {
                &&& ops.len() == 0
                &&& res matches Err(fault) && fault@ == FaultView::Script(message)
                &&& after.outbox == before.outbox
            }
            &&& listed matches Ok((table, keys)) ==> {
                &&& only_aliases(ops, table)
                &&& right_aliases_are_called(ops, line)
                &&& res matches Ok(called) ==> {
                    &&& keys_read(ops) == keys
                    &&& called == calls(ops)
                    &&& after.outbox.sent == before.outbox.sent + reports_of(ops)
                    &&& after.outbox.refused == before.outbox.refused
                    &&& forall|q: int|
                        0 <= q < ops.len() ==> refusal_of(#[trigger] ops[q]) is None
                }
                &&& res matches Err(fault) ==> {
                    &&& ops.len() > 0
                    &&& match fault@ {
                        FaultView::Script(message) => {
                            &&& refusal_of(ops.last()) == Some(message)
                            &&& after.outbox.sent == before.outbox.sent + reports_of(ops)
                        },
                        FaultView::Closed => {
                            &&& ops.last() matches LuaOp::CallAlias { outcome, .. }
                            &&& outcome matches Ok(Err(message))
                            &&& after.outbox.refused.len() == before.outbox.refused.len() + 1
                        },
                    }
                }
            }
        }),
        after.connected == before.connected,
        after.gmcp_ready == before.gmcp_ready,
        after.channel == before.channel,
{
    let n = before.history.len() as int;
    let ops = after.history.skip(n + 1);
    assert(after.history.take(n) =~= before.history);
    if let Ok((table, keys)) = listed {
        assert(ops =~= alias_ops(table, keys, line, steps));
        lemma_alias_visits(table, keys, line, steps);
        law_every_alias_is_visited(table, keys, line, steps);
        if res is Ok {
            assert(keys.take(keys.len() as int) =~= keys);
            assert forall|i: int| 0 <= i < steps.len() implies (
            #[trigger] steps[i]).fault(line) is None by {
                assert(steps.last() == steps[steps.len() - 1]);
            }
            lemma_no_alias_is_refused(table, keys, line, steps);
        } else {
            let m = steps.len() - 1;
            let last = steps.last().ops(table, keys[m], line);
            let front = alias_ops(table, keys, line, steps.drop_last());
            assert(ops.last() == last.last());
            lemma_reports_of_concatenation(front, last);
            lemma_alias_visits(table, keys, line, steps.drop_last());
            lemma_alias_step_reports(steps.last(), table, keys[m], line);
            let start = before.outbox.accepting(alias_reports(line, steps.drop_last()));
            if res->Err_0@ is Closed {
                law_cut_short_is_a_prefix(start, steps.last().report(line), after.outbox);
            } else {
                assert(after.outbox.sent =~= before.outbox.sent + reports_of(ops));
            }
        }
    }
}

proof fn lemma_alias_step_reports(
    step: AliasStep,
    table: RegistryKey,
    key: RegistryKey,
    line: LineView,
)
    ensures
        reports_of(step.ops(table, key, line)) == step.report(line),
{
    let ops = step.ops(table, key, line);
    let read = LuaOp::ReadAlias { table, key, outcome: step.read };
    reveal_with_fuel(reports_of, 3);
    assert(seq![read].drop_last() =~= Seq::empty());
    if step.captures(line) is Some {
        assert(ops.drop_last() =~= seq![read]);
    }
    assert(reports_of(ops) =~= step.report(line));
}

proof fn lemma_no_alias_is_refused(
    table: RegistryKey,
    keys: Seq<RegistryKey>,
    line: LineView,
    steps: Seq<AliasStep>,
)
    requires
        forall|i: int| 0 <= i < steps.len() ==> (#[trigger] steps[i]).fault(line) is None,
    ensures
        ({
            let ops = alias_ops(table, keys, line, steps);
            forall|q: int| 0 <= q < ops.len() ==> refusal_of(#[trigger] ops[q]) is None
        }),
    decreases steps.len(),
{
    if steps.len() > 0 {
        let front = steps.drop_last();
        assert forall|i: int| 0 <= i < front.len() implies (
        #[trigger] front[i]).fault(line) is None by {
            assert(steps[i].fault(line) is None);
        }
        lemma_no_alias_is_refused(table, keys, line, front);
        assert(steps[steps.len() - 1].fault(line) is None);
        let a = alias_ops(table, keys, line, front);
        let b = steps.last().ops(table, keys[steps.len() - 1], line);
        let ops = a + b;
        assert forall|q: int| 0 <= q < ops.len() implies refusal_of(#[trigger] ops[q]) is None by {
            if q < a.len() {
                assert(ops[q] == a[q]);
            } else {
                assert(ops[q] == b[q - a.len()]);
            }
        }
    }
}

/// The operations of one visit to a trigger, and what they tell.
proof fn lemma_trigger_visit(
    step: TriggerStep,
    table: RegistryKey,
    key: RegistryKey,
    line: LineView,
)
    ensures
        ({
            let ops = step.ops(table, key, line);
            &&& right_triggers_are_called(ops, line)
            &&& only_triggers(ops, table)
            &&& reports_of(ops) == step.report(line)
            &&& calls(ops) == (step.captures(line) is Some)
            &&& ops.len() > 0
            &&& ops[0] is ReadTrigger
            &&& step.fault(line) is None ==> {
                &&& flag_is_used_up(ops)
                &&& forall|q: int|
                    0 <= q < ops.len() ==> refusal_of(#[trigger] ops[q]) is None
            }
        }),
{
    let ops = step.ops(table, key, line);
    let read = LuaOp::ReadTrigger { table, key, outcome: step.read };
    if let Ok(Some(trigger)) = step.read {
        law_trigger_is_held_against_the_line(trigger, line);
    }
    reveal_with_fuel(reports_of, 3);
    assert(seq![read].drop_last() =~= Seq::empty());
    assert(ops[0] == read);
    if let Some(captures) = step.captures(line) {
        let called = LuaOp::CallTrigger { table, key, captures, outcome: step.called };
        let flags = step.flag_ops();
        let start = seq![read, called];
        assert(ops == start + flags);
        assert(ops[1] == called);
        assert(start.drop_last() =~= seq![read]);
        lemma_reports_of_concatenation(start, flags);
        assert(reports_of(flags) =~= Seq::empty()) by {
            if flags.len() == 2 {
                assert(flags.drop_last().drop_last() =~= Seq::empty());
                assert(flags.drop_last().last() == flags[0]);
            } else if flags.len() == 1 {
                assert(flags.drop_last() =~= Seq::empty());
            }
        }
        assert(reports_of(start) =~= step.report(line));
        assert forall|q: int| #![trigger ops[q]] 2 <= q < ops.len() implies ops[q] == flags[q
            - 2] by {}
    }
    assert(reports_of(ops) =~= step.report(line));
}

proof fn lemma_trigger_visits(
    table: RegistryKey,
    keys: Seq<RegistryKey>,
    line: LineView,
    steps: Seq<TriggerStep>,
)
    ensures
        ({
            let ops = trigger_ops(table, keys, line, steps);
            &&& right_triggers_are_called(ops, line)
            &&& only_triggers(ops, table)
            &&& reports_of(ops) == trigger_reports(line, steps)
            &&& calls(ops) == trigger_called(line, steps)
        }),
    decreases steps.len(),
{
    if steps.len() > 0 {
        let n = steps.len() - 1;
        let front = steps.drop_last();
        let step = steps.last();
        let a = trigger_ops(table, keys, line, front);
        let b = step.ops(table, keys[n], line);
        let ops = a + b;
        assert(trigger_ops(table, keys, line, steps) == ops);
        lemma_trigger_visits(table, keys, line, front);
        lemma_trigger_visit(step, table, keys[n], line);
        lemma_reports_of_concatenation(a, b);
        lemma_calls_of_concatenation(a, b);
        lemma_called_so_far(line, steps);
        assert forall|q: int| #![trigger ops[q]] 0 <= q < ops.len() implies match ops[q] {
            LuaOp::CallTrigger { table, key, captures, .. } => {
                &&& q > 0
                &&& ops[q - 1] matches LuaOp::ReadTrigger { table: t, key: k, outcome }
                &&& t == table && k == key
                &&& outcome matches Ok(Some(trigger))
                &&& trigger.enabled
                &&& groups_given(
                    regex_captures(
                        trigger.pattern,
                        if trigger.raw {
                            line.line
                        } else {
                            line.clean_line
                        },
                    ),
                    captures,
                )
            },
            LuaOp::ReadTrigger { table, key, outcome: Ok(Some(trigger)) } => {
                trigger.enabled && regex_captures(
                    trigger.pattern,
                    if trigger.raw {
                        line.line
                    } else {
                        line.clean_line
                    },
                ) is Some ==> {
                    &&& q + 1 < ops.len()
                    &&& ops[q + 1] matches LuaOp::CallTrigger { table: t, key: k, .. }
                    &&& t == table && k == key
                }
            },
            _ => true,
        } by {
            if q < a.len() {
                assert(ops[q] == a[q]);
                if q > 0 {
                    assert(ops[q - 1] == a[q - 1]);
                }
                if q + 1 < a.len() {
                    assert(ops[q + 1] == a[q + 1]);
                }
            } else {
                assert(ops[q] == b[q - a.len()]);
                if q > a.len() {
                    assert(ops[q - 1] == b[q - 1 - a.len()]);
                }
                if q + 1 < ops.len() {
                    assert(ops[q + 1] == b[q + 1 - a.len()]);
                }
            }
        }
        assert forall|q: int| #![trigger ops[q]] 0 <= q < ops.len() implies match ops[q] {
            LuaOp::ReadTrigger { table: t, .. } => t == table,
            LuaOp::CallTrigger { table: t, .. } => t == table,
            LuaOp::GetFlag { name, .. } => name == GAG_NEXT_TRIGGER_LINE@,
            LuaOp::SetFlag { name, value, .. } => name == GAG_NEXT_TRIGGER_LINE@ && !value,
            _ => false,
        } by {
            if q < a.len() {
                assert(ops[q] == a[q]);
            } else {
                assert(ops[q] == b[q - a.len()]);
            }
        }
    }
}

/// Where nothing stops the visits, the flag is used up after each callback, nothing is
/// refused, and whether the line is hidden is what the operations tell.
proof fn lemma_finished_trigger_visits(
    table: RegistryKey,
    keys: Seq<RegistryKey>,
    line: LineView,
    steps: Seq<TriggerStep>,
)
    requires
        forall|i: int| 0 <= i < steps.len() ==> (#[trigger] steps[i]).fault(line) is None,
    ensures
        ({
            let ops = trigger_ops(table, keys, line, steps);
            &&& flag_is_used_up(ops)
            &&& forall|q: int| 0 <= q < ops.len() ==> refusal_of(#[trigger] ops[q]) is None
            &&& trigger_flags(line, steps).gag == hidden_after(ops, line.flags.gag)
        }),
    decreases steps.len(),
{
    if steps.len() > 0 {
        let n = steps.len() - 1;
        let front = steps.drop_last();
        let step = steps.last();
        assert forall|i: int| 0 <= i < front.len() implies (
        #[trigger] front[i]).fault(line) is None by {
            assert(steps[i].fault(line) is None);
        }
        lemma_finished_trigger_visits(table, keys, line, front);
        assert(steps[n].fault(line) is None);
        lemma_trigger_visit(step, table, keys[n], line);
        let a = trigger_ops(table, keys, line, front);
        let b = step.ops(table, keys[n], line);
        let ops = a + b;
        assert(trigger_ops(table, keys, line, steps) == ops);
        lemma_trigger_visits(table, keys, line, front);
        assert forall|q: int| 0 <= q < ops.len() implies refusal_of(#[trigger] ops[q]) is None by {
            if q < a.len() {
                assert(ops[q] == a[q]);
            } else {
                assert(ops[q] == b[q - a.len()]);
            }
        }
        assert forall|q: int| #![trigger ops[q]]
            0 < q < ops.len() && ops[q] is CallTrigger implies {
            &&& ops[q - 1] matches LuaOp::ReadTrigger { outcome, .. }
            &&& outcome matches Ok(Some(trigger))
            &&& if trigger.gag {
                &&& q + 1 < ops.len()
                &&& ops[q + 1] matches LuaOp::SetFlag { name, value, outcome }
                &&& name == GAG_NEXT_TRIGGER_LINE@ && !value && outcome is Ok
            } else {
                &&& q + 2 < ops.len()
                &&& ops[q + 1] matches LuaOp::GetFlag { name, outcome }
                &&& name == GAG_NEXT_TRIGGER_LINE@ && outcome is Ok
                &&& ops[q + 2] matches LuaOp::SetFlag { name, value, outcome }
                &&& name == GAG_NEXT_TRIGGER_LINE@ && !value && outcome is Ok
            }
        } by {
            if q < a.len() {
                assert(ops[q] == a[q]);
                assert(ops[q - 1] == a[q - 1]);
                if q + 1 < a.len() {
                    assert(ops[q + 1] == a[q + 1]);
                }
                if q + 2 < a.len() {
                    assert(ops[q + 2] == a[q + 2]);
                }
            } else {
                assert(ops[q] == b[q - a.len()]);
                if q > a.len() {
                    assert(ops[q - 1] == b[q - 1 - a.len()]);
                }
                if q + 1 < ops.len() {
                    assert(ops[q + 1] == b[q + 1 - a.len()]);
                }
                if q + 2 < ops.len() {
                    assert(ops[q + 2] == b[q + 2 - a.len()]);
                }
            }
        }
        lemma_hidden_after_visit(a, step, table, keys[n], line, line.flags.gag);
    }
}

proof fn lemma_hidden_after_visit(
    a: Seq<LuaOp>,
    step: TriggerStep,
    table: RegistryKey,
    key: RegistryKey,
    line: LineView,
    hidden: bool,
)
    requires
        step.fault(line) is None,
    ensures
        hidden_after(a + step.ops(table, key, line), hidden) == if step.captures(line) is Some {
            step.hides(hidden_after(a, hidden))
        } else {
            hidden_after(a, hidden)
        },
{
    let b = step.ops(table, key, line);
    let ops = a + b;
    let read = LuaOp::ReadTrigger { table, key, outcome: step.read };
    let one = a.push(read);
    assert(one.drop_last() =~= a);
    reveal_with_fuel(hidden_after, 2);
    assert(hidden_after(one, hidden) == hidden_after(a, hidden));
    if let Some(captures) = step.captures(line) {
        let called = LuaOp::CallTrigger { table, key, captures, outcome: step.called };
        let two = one.push(called);
        assert(two.drop_last() =~= one);
        assert(one.last() == read);
        let clear = LuaOp::SetFlag {
            name: GAG_NEXT_TRIGGER_LINE@,
            value: false,
            outcome: step.cleared,
        };
        if step.gags() {
            assert(ops =~= two.push(clear));
            assert(two.push(clear).drop_last() =~= two);
        } else {
            let look = LuaOp::GetFlag { name: GAG_NEXT_TRIGGER_LINE@, outcome: step.flag };
            let three = two.push(look);
            assert(three.drop_last() =~= two);
            assert(ops =~= three.push(clear));
            assert(three.push(clear).drop_last() =~= three);
        }
    } else {
        assert(ops =~= one);
    }
}

/// A line is held against every trigger of the table, once and in order, whatever comes
/// of the others. Exactly the enabled ones whose pattern matches in the line are called,
/// each with the groups of its match. The line is marked exactly if one was called, and
/// hidden as the last one wants it; its text stays. Every error that a callback ends in
/// is reported, and nothing else is sent.
#[verifier::spinoff_prover]
#[verifier::rlimit(40)]
pub proof fn law_triggers_are_checked(
    before: ScriptView,
    name: Seq<char>,
    line: LineView,
    listed: Result<(RegistryKey, Seq<RegistryKey>), Seq<char>>,
    steps: Seq<TriggerStep>,
    after: ScriptView,
    line_after: LineView,
    res: Result<(), Fault>,
)
    requires
        triggers_checked(before, name, line, listed, steps, after, line_after, res),
    ensures
        ({
            let n = before.history.len() as int;
            let ops = after.history.skip(n + 1);
            &&& after.history.len() > n
            &&& after.history.take(n) == before.history
            &&& after.history[n] == (LuaOp::Keys { name, outcome: listed })
            &&& listed matches Err(message) ==> {
                &&& ops.len() == 0
                &&& res matches Err(fault) && fault@ == FaultView::Script(message)
                &&& after.outbox == before.outbox
                &&& line_after == line
            }
            &&& listed matches Ok((table, keys)) ==> {
                &&& only_triggers(ops, table)
                &&& right_triggers_are_called(ops, line)
                &&& res is Ok ==> {
                    &&& keys_read(ops) == keys
                    &&& line_after.flags.matched == (line.flags.matched || calls(ops))
                    &&& line_after.flags.gag == hidden_after(ops, line.flags.gag)
                    &&& flag_is_used_up(ops)
                    &&& after.outbox.sent == before.outbox.sent + reports_of(ops)
                    &&& after.outbox.refused == before.outbox.refused
                    &&& forall|q: int|
                        0 <= q < ops.len() ==> refusal_of(#[trigger] ops[q]) is None
                }
                &&& res matches Err(fault) ==> {
                    &&& ops.len() > 0
                    &&& match fault@ {
                        FaultView::Script(message) => {
                            &&& refusal_of(ops.last()) == Some(message)
                            &&& after.outbox.sent == before.outbox.sent + reports_of(ops)
                        },
                        FaultView::Closed => {
                            &&& ops.last() matches LuaOp::CallTrigger { outcome, .. }
                            &&& outcome matches Ok(Err(message))
                            &&& after.outbox.refused.len() == before.outbox.refused.len() + 1
                        },
                    }
                }
            }
        }),
        line_after.content == line.content,
        line_after.line == line.line,
        line_after.clean_line == line.clean_line,
        line_after.flags.bypass_script == line.flags.bypass_script,
        after.connected == before.connected,
        after.gmcp_ready == before.gmcp_ready,
        after.channel == before.channel,
{
    let n = before.history.len() as int;
    let ops = after.history.skip(n + 1);
    assert(after.history.take(n) =~= before.history);
    if let Ok((table, keys)) = listed {
        assert(ops =~= trigger_ops(table, keys, line, steps));
        lemma_trigger_visits(table, keys, line, steps);
        law_every_trigger_is_visited(table, keys, line, steps);
        lemma_bypass_stays(line, steps);
        if res is Ok {
            assert(keys.take(keys.len() as int) =~= keys);
            assert forall|i: int| 0 <= i < steps.len() implies (
            #[trigger] steps[i]).fault(line) is None by {
                assert(steps.last() == steps[steps.len() - 1]);
            }
            lemma_finished_trigger_visits(table, keys, line, steps);
            law_matched_means_called(line, steps);
        } else {
            let m = steps.len() - 1;
            let last = steps.last().ops(table, keys[m], line);
            lemma_stopping_trigger(steps.last(), table, keys[m], line);
            assert(ops.last() == last.last());
            let start = before.outbox.accepting(trigger_reports(line, steps.drop_last()));
            if res->Err_0@ is Closed {
                law_cut_short_is_a_prefix(start, steps.last().report(line), after.outbox);
            } else {
                assert(trigger_reports(line, steps) == trigger_reports(line, steps.drop_last())
                    + steps.last().report(line));
                assert(after.outbox.sent =~= before.outbox.sent + reports_of(ops));
            }
        }
    }
}

/// The last operation of a visit that stops the visits tells why.
proof fn lemma_stopping_trigger(
    step: TriggerStep,
    table: RegistryKey,
    key: RegistryKey,
    line: LineView,
)
    ensures
        step.ops(table, key, line).len() > 0,
        match step.fault(line) {
            Some(FaultView::Script(message)) => refusal_of(step.ops(table, key, line).last())
                == Some(message),
            Some(FaultView::Closed) => {
                &&& step.ops(table, key, line).last() matches LuaOp::CallTrigger { outcome, .. }
                &&& outcome matches Ok(Err(message))
            },
            None => true,
        },
{
}

proof fn lemma_bypass_stays(line: LineView, steps: Seq<TriggerStep>)
    ensures
        trigger_flags(line, steps).bypass_script == line.flags.bypass_script,
    decreases steps.len(),
{
    if steps.len() > 0 {
        lemma_bypass_stays(line, steps.drop_last());
    }
}

} // verus!
