//! What the record of an interpreter tells of what it holds.
//!
//! A script can change anything, and can even have Lua answer otherwise than it was
//! told. So what is known of an interpreter is known only until a script runs, and
//! counts only where the interpreter keeps to it.

use super::blight::{line_views, ui_views, BlightView, UiEvent};
use super::constants::TIMED_FUNCTION_TABLE;
use super::effects::{
    after_ops, dimensions_set, exchange_ops, output_taken, timed_function_removed,
    timed_function_run, ui_events_taken, ScriptView,
};
use super::interpreter::LuaOp;
use crate::event::Fault;
use crate::line::Line;
use rlua::RegistryKey;
use vstd::prelude::*;

verus! {

/// Whether an operation runs a script, or a function of one.
pub open spec fn runs_script(op: LuaOp) -> bool {
    match op {
        LuaOp::Exec { .. } => true,
        LuaOp::ExecNamed { .. } => true,
        LuaOp::LoadModule { .. } => true,
        LuaOp::CallAlias { .. } => true,
        LuaOp::CallTrigger { .. } => true,
        LuaOp::Call { .. } => true,
        _ => false,
    }
}

/// What a read of the `blight` object is to give, as far as it is known: a copy of what
/// was last read or put, unless a script has run since.
pub open spec fn held(history: Seq<LuaOp>) -> Option<BlightView>
    decreases history.len(),
{
    if history.len() == 0 {
        None
    } else {
        match history.last() {
            LuaOp::SetBlight { blight, outcome: Ok(()) } => Some(blight.copied()),
            LuaOp::SetBlight { .. } => None,
            LuaOp::GetBlight { outcome: Ok(blight) } => Some(blight.copied()),
            op => if runs_script(op) {
                None
            } else {
                held(history.drop_last())
            },
        }
    }
}

/// The interpreter gives back the `blight` object that it is known to hold.
pub open spec fn gives_back(history: Seq<LuaOp>) -> bool {
    forall|i: int| #![trigger history[i]]
        0 <= i < history.len() ==> match (history[i], held(history.take(i))) {
            (LuaOp::GetBlight { outcome }, Some(blight)) => outcome == Ok::<
                BlightView,
                Seq<char>,
            >(blight),
            _ => true,
        }
}

proof fn lemma_held_is_a_copy(history: Seq<LuaOp>)
    ensures
        held(history) matches Some(blight) ==> blight == blight.copied(),
    decreases history.len(),
{
    if history.len() > 0 {
        lemma_held_is_a_copy(history.drop_last());
    }
}

/// Reading the object and putting another one back.
proof fn lemma_exchange(
    before: ScriptView,
    got: Result<BlightView, Seq<char>>,
    put: BlightView,
    set: Result<(), Seq<char>>,
    after: ScriptView,
)
    requires
        after == after_ops(before, exchange_ops(got, put, set)),
    ensures
        gives_back(after.history) && held(before.history) is Some ==> got == Ok::<
            BlightView,
            Seq<char>,
        >(held(before.history)->0),
        got is Ok && set is Ok ==> held(after.history) == Some(put.copied()),
{
    let n = before.history.len() as int;
    assert(after.history.take(n) =~= before.history);
    assert(after.history[n] == (LuaOp::GetBlight { outcome: got }));
}

/// Scripts' lines are handed out whole and in order, and none is left. What the user
/// interface is to do and the size of the screen stay.
pub proof fn law_output_is_handed_out(
    before: ScriptView,
    blight: BlightView,
    got: Result<BlightView, Seq<char>>,
    set: Result<(), Seq<char>>,
    after: ScriptView,
    res: Result<Vec<Line>, Fault>,
)
    requires
        held(before.history) == Some(blight),
        output_taken(before, got, set, after, res),
        gives_back(after.history),
    ensures
        res is Ok <==> set is Ok,
        res matches Ok(lines) ==> {
            &&& line_views(lines@) == blight.output_lines
            &&& held(after.history) == Some(
                BlightView { output_lines: Seq::empty(), ..blight },
            )
        },
{
    let put = BlightView { output_lines: Seq::empty(), ..got->Ok_0 };
    lemma_exchange(before, got, put, set, after);
    lemma_held_is_a_copy(before.history);
}

/// What the user interface is to do is handed out whole and in order, and nothing is
/// left. The lines to show and the size of the screen stay.
pub proof fn law_ui_events_are_handed_out(
    before: ScriptView,
    blight: BlightView,
    got: Result<BlightView, Seq<char>>,
    set: Result<(), Seq<char>>,
    after: ScriptView,
    res: Result<Vec<UiEvent>, Fault>,
)
    requires
        held(before.history) == Some(blight),
        ui_events_taken(before, got, set, after, res),
        gives_back(after.history),
    ensures
        res is Ok <==> set is Ok,
        res matches Ok(events) ==> {
            &&& ui_views(events@) == blight.ui_events
            &&& held(after.history) == Some(BlightView { ui_events: Seq::empty(), ..blight })
        },
{
    let put = BlightView { ui_events: Seq::empty(), ..got->Ok_0 };
    lemma_exchange(before, got, put, set, after);
    lemma_held_is_a_copy(before.history);
}

/// The size of the screen is set, and nothing else changes.
pub proof fn law_size_is_set(
    before: ScriptView,
    dimensions: (u16, u16),
    blight: BlightView,
    got: Result<BlightView, Seq<char>>,
    set: Result<(), Seq<char>>,
    after: ScriptView,
    res: Result<(), Fault>,
)
    requires
        held(before.history) == Some(blight),
        dimensions_set(before, dimensions, got, set, after, res),
        gives_back(after.history),
    ensures
        res is Ok <==> set is Ok,
        res is Ok ==> held(after.history) == Some(
            BlightView { screen_dimensions: dimensions, ..blight },
        ),
        after.outbox == before.outbox,
{
    let put = BlightView { screen_dimensions: dimensions, ..got->Ok_0 };
    lemma_exchange(before, got, put, set, after);
    lemma_held_is_a_copy(before.history);
}

/// Lines to show are handed out once: there are none left, unless something has been
/// done with the object since.
pub proof fn law_output_is_handed_out_once(
    before: ScriptView,
    got: Result<BlightView, Seq<char>>,
    set: Result<(), Seq<char>>,
    between: ScriptView,
    first: Vec<Line>,
    middle: ScriptView,
    next_got: Result<BlightView, Seq<char>>,
    next_set: Result<(), Seq<char>>,
    after: ScriptView,
    second: Result<Vec<Line>, Fault>,
)
    requires
        output_taken(before, got, set, between, Ok(first)),
        held(middle.history) == held(between.history),
        output_taken(middle, next_got, next_set, after, second),
        gives_back(after.history),
    ensures
        second is Ok <==> next_set is Ok,
        second matches Ok(lines) ==> lines@.len() == 0,
{
    let put = BlightView { output_lines: Seq::empty(), ..got->Ok_0 };
    lemma_exchange(before, got, put, set, between);
    law_output_is_handed_out(middle, put.copied(), next_got, next_set, after, second);
    if let Ok(lines) = second {
        assert(line_views(lines@).len() == lines@.len());
    }
}

/// What the user interface is to do is handed out once: there is nothing left, unless
/// something has been done with the object since.
pub proof fn law_ui_events_are_handed_out_once(
    before: ScriptView,
    got: Result<BlightView, Seq<char>>,
    set: Result<(), Seq<char>>,
    between: ScriptView,
    first: Vec<UiEvent>,
    middle: ScriptView,
    next_got: Result<BlightView, Seq<char>>,
    next_set: Result<(), Seq<char>>,
    after: ScriptView,
    second: Result<Vec<UiEvent>, Fault>,
)
    requires
        ui_events_taken(before, got, set, between, Ok(first)),
        held(middle.history) == held(between.history),
        ui_events_taken(middle, next_got, next_set, after, second),
        gives_back(after.history),
    ensures
        second is Ok <==> next_set is Ok,
        second matches Ok(events) ==> events@.len() == 0,
{
    let put = BlightView { ui_events: Seq::empty(), ..got->Ok_0 };
    lemma_exchange(before, got, put, set, between);
    law_ui_events_are_handed_out(middle, put.copied(), next_got, next_set, after, second);
    if let Ok(events) = second {
        assert(ui_views(events@).len() == events@.len());
    }
}

/// Setting the size of the screen keeps the lines to show for the next time that they
/// are asked for.
pub proof fn law_resizing_keeps_output(
    before: ScriptView,
    dimensions: (u16, u16),
    got: Result<BlightView, Seq<char>>,
    set: Result<(), Seq<char>>,
    between: ScriptView,
    middle: ScriptView,
    next_got: Result<BlightView, Seq<char>>,
    next_set: Result<(), Seq<char>>,
    after: ScriptView,
    res: Result<Vec<Line>, Fault>,
)
    requires
        dimensions_set(before, dimensions, got, set, between, Ok(())),
        held(middle.history) == held(between.history),
        output_taken(middle, next_got, next_set, after, res),
        gives_back(after.history),
    ensures
        res is Ok <==> next_set is Ok,
        res matches Ok(lines) ==> line_views(lines@) == got->Ok_0.output_lines,
{
    let put = BlightView { screen_dimensions: dimensions, ..got->Ok_0 };
    lemma_exchange(before, got, put, set, between);
    law_output_is_handed_out(middle, put.copied(), next_got, next_set, after, res);
}

/// Setting the size of the screen keeps what the user interface is to do for the next
/// time that it is asked for.
pub proof fn law_resizing_keeps_ui_events(
    before: ScriptView,
    dimensions: (u16, u16),
    got: Result<BlightView, Seq<char>>,
    set: Result<(), Seq<char>>,
    between: ScriptView,
    middle: ScriptView,
    next_got: Result<BlightView, Seq<char>>,
    next_set: Result<(), Seq<char>>,
    after: ScriptView,
    res: Result<Vec<UiEvent>, Fault>,
)
    requires
        dimensions_set(before, dimensions, got, set, between, Ok(())),
        held(middle.history) == held(between.history),
        ui_events_taken(middle, next_got, next_set, after, res),
        gives_back(after.history),
    ensures
        res is Ok <==> next_set is Ok,
        res matches Ok(events) ==> ui_views(events@) == got->Ok_0.ui_events,
{
    let put = BlightView { screen_dimensions: dimensions, ..got->Ok_0 };
    lemma_exchange(before, got, put, set, between);
    law_ui_events_are_handed_out(middle, put.copied(), next_got, next_set, after, res);
}

/// Handing out what the user interface is to do keeps the lines to show.
pub proof fn law_ui_events_leave_output(
    before: ScriptView,
    got: Result<BlightView, Seq<char>>,
    set: Result<(), Seq<char>>,
    between: ScriptView,
    events: Vec<UiEvent>,
    middle: ScriptView,
    next_got: Result<BlightView, Seq<char>>,
    next_set: Result<(), Seq<char>>,
    after: ScriptView,
    res: Result<Vec<Line>, Fault>,
)
    requires
        ui_events_taken(before, got, set, between, Ok(events)),
        held(middle.history) == held(between.history),
        output_taken(middle, next_got, next_set, after, res),
        gives_back(after.history),
    ensures
        res is Ok <==> next_set is Ok,
        res matches Ok(lines) ==> line_views(lines@) == got->Ok_0.output_lines,
{
    let put = BlightView { ui_events: Seq::empty(), ..got->Ok_0 };
    lemma_exchange(before, got, put, set, between);
    law_output_is_handed_out(middle, put.copied(), next_got, next_set, after, res);
}

/// Handing out the lines to show keeps what the user interface is to do.
pub proof fn law_output_leaves_ui_events(
    before: ScriptView,
    got: Result<BlightView, Seq<char>>,
    set: Result<(), Seq<char>>,
    between: ScriptView,
    lines: Vec<Line>,
    middle: ScriptView,
    next_got: Result<BlightView, Seq<char>>,
    next_set: Result<(), Seq<char>>,
    after: ScriptView,
    res: Result<Vec<UiEvent>, Fault>,
)
    requires
        output_taken(before, got, set, between, Ok(lines)),
        held(middle.history) == held(between.history),
        ui_events_taken(middle, next_got, next_set, after, res),
        gives_back(after.history),
    ensures
        res is Ok <==> next_set is Ok,
        res matches Ok(events) ==> ui_views(events@) == got->Ok_0.ui_events,
{
    let put = BlightView { output_lines: Seq::empty(), ..got->Ok_0 };
    lemma_exchange(before, got, put, set, between);
    law_ui_events_are_handed_out(middle, put.copied(), next_got, next_set, after, res);
}

/// Which timed functions there are, as far as it is known: under some numbers there is
/// one, and under some there is none.
pub open spec fn timed_functions(history: Seq<LuaOp>) -> Map<u32, bool>
    decreases history.len(),
{
    if history.len() == 0 {
        Map::empty()
    } else {
        let before = timed_functions(history.drop_last());
        match history.last() {
            LuaOp::FindNumbered { table, id, outcome: Ok(_) } if table == TIMED_FUNCTION_TABLE@ => {
                before.insert(id, true)
            },
            LuaOp::ClearNumbered { table, id, outcome } if table == TIMED_FUNCTION_TABLE@ => {
                if outcome is Ok {
                    before.insert(id, false)
                } else {
                    before.remove(id)
                }
            },
            op => if runs_script(op) {
                Map::empty()
            } else {
                before
            },
        }
    }
}

/// The interpreter finds the timed functions that are known to be there, and no other
/// under a number that is known to be free.
pub open spec fn finds_what_is_there(history: Seq<LuaOp>) -> bool {
    forall|i: int| #![trigger history[i]]
        0 <= i < history.len() ==> match history[i] {
            LuaOp::FindNumbered { table, id, outcome } => {
                let known = timed_functions(history.take(i));
                table == TIMED_FUNCTION_TABLE@ && known.contains_key(id) ==> known[id] == (
                outcome is Ok)
            },
            _ => true,
        }
}

/// Removing a timed function empties its place, whether or not there was one, and
/// touches no other. Nothing is called, nothing is sent, and the `blight` object stays.
pub proof fn law_removal_empties_one_place(
    before: ScriptView,
    id: u32,
    cleared: Result<(), Seq<char>>,
    after: ScriptView,
    res: Result<(), Fault>,
)
    requires
        timed_function_removed(before, id, cleared, after, res),
    ensures
        res is Ok <==> cleared is Ok,
        res is Ok ==> timed_functions(after.history) == timed_functions(before.history).insert(
            id,
            false,
        ),
        held(after.history) == held(before.history),
        after.history.len() == before.history.len() + 1,
        !runs_script(after.history.last()),
        after.outbox == before.outbox,
{
    assert(after.history.drop_last() =~= before.history);
}

/// Removing a timed function again changes nothing.
pub proof fn law_removing_again_changes_nothing(
    before: ScriptView,
    id: u32,
    cleared: Result<(), Seq<char>>,
    between: ScriptView,
    again: Result<(), Seq<char>>,
    after: ScriptView,
)
    requires
        timed_function_removed(before, id, cleared, between, Ok(())),
        timed_function_removed(between, id, again, after, Ok(())),
    ensures
        timed_functions(after.history) == timed_functions(between.history),
        held(after.history) == held(between.history),
        after.outbox == between.outbox,
{
    law_removal_empties_one_place(before, id, cleared, between, Ok(()));
    law_removal_empties_one_place(between, id, again, after, Ok(()));
    assert(timed_functions(after.history) =~= timed_functions(between.history));
}

/// A timed function that has been removed is not called.
pub proof fn law_removed_function_is_not_called(
    before: ScriptView,
    id: u32,
    cleared: Result<(), Seq<char>>,
    between: ScriptView,
    middle: ScriptView,
    found: Result<RegistryKey, Seq<char>>,
    called: Result<(), Seq<char>>,
    after: ScriptView,
    res: Result<(), Fault>,
)
    requires
        timed_function_removed(before, id, cleared, between, Ok(())),
        timed_functions(middle.history) == timed_functions(between.history),
        timed_function_run(middle, id, found, called, after, res),
        finds_what_is_there(after.history),
    ensures
        res is Err,
        after.history == middle.history.push(
            LuaOp::FindNumbered { table: TIMED_FUNCTION_TABLE@, id, outcome: found },
        ),
{
    law_removal_empties_one_place(before, id, cleared, between, Ok(()));
    lemma_finding(middle, id, found, called, after, res);
}

/// A timed function is called though another one has been removed.
pub proof fn law_removal_keeps_other_functions(
    before: ScriptView,
    id: u32,
    cleared: Result<(), Seq<char>>,
    between: ScriptView,
    middle: ScriptView,
    other: u32,
    found: Result<RegistryKey, Seq<char>>,
    called: Result<(), Seq<char>>,
    after: ScriptView,
    res: Result<(), Fault>,
)
    requires
        timed_functions(before.history).contains_key(other),
        timed_functions(before.history)[other],
        other != id,
        timed_function_removed(before, id, cleared, between, Ok(())),
        timed_functions(middle.history) == timed_functions(between.history),
        timed_function_run(middle, other, found, called, after, res),
        finds_what_is_there(after.history),
    ensures
        found is Ok,
        after.history.last() is Call,
        res is Ok <==> called is Ok,
{
    law_removal_empties_one_place(before, id, cleared, between, Ok(()));
    lemma_finding(middle, other, found, called, after, res);
}

/// Looking for a timed function that is known to be there, or not to be there.
proof fn lemma_finding(
    before: ScriptView,
    id: u32,
    found: Result<RegistryKey, Seq<char>>,
    called: Result<(), Seq<char>>,
    after: ScriptView,
    res: Result<(), Fault>,
)
    requires
        timed_functions(before.history).contains_key(id),
        timed_function_run(before, id, found, called, after, res),
        finds_what_is_there(after.history),
    ensures
        timed_functions(before.history)[id] == (found is Ok),
{
    let n = before.history.len() as int;
    assert(after.history.take(n) =~= before.history);
    assert(after.history[n] == (LuaOp::FindNumbered {
        table: TIMED_FUNCTION_TABLE@,
        id,
        outcome: found,
    }));
}

} // verus!
