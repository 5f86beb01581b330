//! What the calls of scripts leave registered, and that lines are held against it.

use super::callbacks::{
    alias_added, alias_attempt, alias_removal, alias_switch_attempt, alias_switched, asked, binding,
    done, entry_attempt, gmcp_listener, hiding, hook, number_after, removal_attempt, requested,
    spec_trigger_table, trigger_added, trigger_attempt, trigger_removed, trigger_switch_attempt,
    trigger_switched, wanted_trigger_added, wanted_trigger_attempt, ContextOp, EntryAnswers,
    OptionAnswers, SwitchAnswers,
};
use super::constants::{
    ALIAS_TABLE, COMMAND_BINDING_TABLE, GAG_NEXT_TRIGGER_LINE, GMCP_LISTENER_TABLE, LAST_NUMBER,
    PROMPT_TRIGGER_TABLE, TRIGGER_TABLE,
};
use super::effects::{
    alias_called, aliases_checked, trigger_called, triggers_checked, AliasStep, ScriptView,
    TriggerStep,
};
use super::laws::law_matched_means_called;
use super::matcher::{regex_error, AliasView, TriggerView};
use crate::line::LineView;
use rlua::{AnyUserData, Function, RegistryKey, Table};
use vstd::prelude::*;

verus! {

/// What scripts have registered, as far as the requests of their calls tell: what each
/// object is, and which object is under which number of which table.
#[verifier::ext_equal]
pub ghost struct Registered<'lua> {
    pub aliases: Map<AnyUserData<'lua>, AliasView>,
    pub triggers: Map<AnyUserData<'lua>, TriggerView>,
    pub places: Map<(Seq<char>, u32), AnyUserData<'lua>>,
}

impl<'lua> Registered<'lua> {
    /// The alias with a number, if there is one.
    pub open spec fn alias_at(self, number: u32) -> Option<AliasView> {
        let place = (ALIAS_TABLE@, number);
        if self.places.contains_key(place) && self.aliases.contains_key(self.places[place]) {
            Some(self.aliases[self.places[place]])
        } else {
            None
        }
    }

    /// The trigger with a number, for prompts or for other lines, if there is one.
    pub open spec fn trigger_at(self, prompt: bool, number: u32) -> Option<TriggerView> {
        let place = (spec_trigger_table(prompt), number);
        if self.places.contains_key(place) && self.triggers.contains_key(self.places[place]) {
            Some(self.triggers[self.places[place]])
        } else {
            None
        }
    }

    /// `entry` is in no place but, maybe, `except`.
    pub open spec fn only_at(
        self,
        entry: AnyUserData<'lua>,
        except: Option<(Seq<char>, u32)>,
    ) -> bool {
        forall|place: (Seq<char>, u32)| #[trigger]
            self.places.contains_key(place) && Some(place) != except ==> self.places[place] != entry
    }

    /// What is registered once `op` has been carried out.
    pub open spec fn after(self, op: ContextOp<'lua>) -> Registered<'lua> {
        match op {
            ContextOp::NewAlias { alias, outcome: Ok(entry) } => Registered {
                aliases: self.aliases.insert(entry, alias),
                ..self
            },
            ContextOp::NewTrigger { trigger, outcome: Ok(entry) } => Registered {
                triggers: self.triggers.insert(entry, trigger),
                ..self
            },
            ContextOp::PutEntry { table, number, entry, outcome: Ok(()) } => Registered {
                places: self.places.insert((table, number), entry),
                ..self
            },
            ContextOp::ClearEntry { table, number, outcome: Ok(()) } => Registered {
                places: self.places.remove((table, number)),
                ..self
            },
            ContextOp::SwitchAlias { entry, enabled, outcome: Ok(()) } => Registered {
                aliases: self.aliases.insert(
                    entry,
                    AliasView { enabled, ..self.aliases[entry] },
                ),
                ..self
            },
            ContextOp::SwitchTrigger { entry, enabled, outcome: Ok(()) } => Registered {
                triggers: self.triggers.insert(
                    entry,
                    TriggerView { enabled, ..self.triggers[entry] },
                ),
                ..self
            },
            _ => self,
        }
    }

    /// What is registered once `ops` have been carried out.
    pub open spec fn after_all(self, ops: Seq<ContextOp<'lua>>) -> Registered<'lua>
        decreases ops.len(),
    {
        if ops.len() == 0 {
            self
        } else {
            self.after_all(ops.drop_last()).after(ops.last())
        }
    }

    /// The same aliases are registered, but maybe for the one with the number `except`.
    pub open spec fn same_aliases(self, other: Registered<'lua>, except: Option<u32>) -> bool {
        forall|number: u32|
            Some(number) != except ==> #[trigger] self.alias_at(number) == other.alias_at(number)
    }

    /// The same triggers are registered, but maybe for the one at `except`.
    pub open spec fn same_triggers(
        self,
        other: Registered<'lua>,
        except: Option<(bool, u32)>,
    ) -> bool {
        forall|prompt: bool, number: u32|
            Some((prompt, number)) != except ==> #[trigger] self.trigger_at(prompt, number)
                == other.trigger_at(prompt, number)
    }
}

proof fn lemma_tables_differ()
    ensures
        ALIAS_TABLE@ != TRIGGER_TABLE@,
        ALIAS_TABLE@ != PROMPT_TRIGGER_TABLE@,
        TRIGGER_TABLE@ != PROMPT_TRIGGER_TABLE@,
{
    reveal_strlit("__alias_table");
    reveal_strlit("__trigger_table");
    reveal_strlit("__prompt_trigger_table");
    assert(ALIAS_TABLE@.len() == 13);
    assert(TRIGGER_TABLE@.len() == 15);
    assert(PROMPT_TRIGGER_TABLE@.len() == 22);
}

proof fn lemma_after_concatenation<'lua>(
    start: Registered<'lua>,
    a: Seq<ContextOp<'lua>>,
    b: Seq<ContextOp<'lua>>,
)
    ensures
        start.after_all(a + b) == start.after_all(a).after_all(b),
    decreases b.len(),
{
    if b.len() == 0 {
        assert(a + b =~= a);
    } else {
        lemma_after_concatenation(start, a, b.drop_last());
        assert((a + b).drop_last() =~= a + b.drop_last());
    }
}

proof fn lemma_after_first<'lua>(
    start: Registered<'lua>,
    op: ContextOp<'lua>,
    rest: Seq<ContextOp<'lua>>,
)
    ensures
        start.after_all(seq![op] + rest) == start.after(op).after_all(rest),
        start.after_all(seq![op]) == start.after(op),
{
    lemma_after_concatenation(start, seq![op], rest);
    reveal_with_fuel(Registered::after_all, 2);
    assert(seq![op].drop_last() =~= Seq::empty());
}

/// An object that gets its callback, a number and a place is put there, or nowhere.
proof fn lemma_entry<'lua>(
    start: Registered<'lua>,
    table: Seq<char>,
    callback: Function<'lua>,
    answers: EntryAnswers<'lua>,
)
    ensures
        ({
            let attempt = entry_attempt(table, callback, answers);
            let after = start.after_all(attempt.ops);
            &&& attempt.result matches Ok(number) ==> {
                &&& number_after(answers.last->Ok_0) == Some(number)
                &&& after == Registered {
                    places: start.places.insert((table, number), answers.entry->Ok_0),
                    ..start
                }
            }
            &&& attempt.result is Err ==> after == start
        }),
{
    let entry = answers.entry->Ok_0;
    let name = LAST_NUMBER@;
    let keep = ContextOp::KeepCallback { entry, callback, outcome: answers.kept };
    let get = ContextOp::GetNumber { name, outcome: answers.last };
    match number_after(answers.last->Ok_0) {
        Some(number) => {
            let store = ContextOp::SetNumber { name, number, outcome: answers.stored };
            let put = ContextOp::PutEntry { table, number, entry, outcome: answers.put };
            let last = asked(put, done(number));
            let third = asked(store, last);
            let second = asked(get, third);
            lemma_after_first(start, put, Seq::empty());
            lemma_after_first(start, store, last.ops);
            lemma_after_first(start, get, third.ops);
            lemma_after_first(start, keep, second.ops);
        },
        None => {
            lemma_after_first(start, get, Seq::empty());
            lemma_after_first(start, keep, seq![get] + Seq::empty());
            lemma_after_first(start, keep, seq![get]);
        },
    }
}

/// A script that adds an alias gets a number, and under this number there is from then
/// on an enabled alias for its pattern. Nothing else changes, and nothing at all if the
/// script is told of an error. The object that is made is a new one.
pub proof fn law_added_alias_is_registered<'lua>(
    start: Registered<'lua>,
    before: Seq<ContextOp<'lua>>,
    pattern: Seq<char>,
    callback: Function<'lua>,
    answers: EntryAnswers<'lua>,
    after: Seq<ContextOp<'lua>>,
    res: Result<u32, String>,
)
    requires
        alias_added(before, pattern, callback, answers, after, res),
        answers.entry matches Ok(entry) ==> start.after_all(before).only_at(entry, None),
    ensures
        ({
            let old_state = start.after_all(before);
            let new_state = start.after_all(after);
            &&& res matches Ok(number) ==> {
                &&& number_after(answers.last->Ok_0) == Some(number)
                &&& new_state.alias_at(number) == Some(AliasView { pattern, enabled: true })
                &&& new_state.same_aliases(old_state, Some(number))
            }
            &&& res is Err ==> new_state.same_aliases(old_state, None)
            &&& new_state.same_triggers(old_state, None)
        }),
{
    lemma_tables_differ();
    let state = start.after_all(before);
    let attempt = alias_attempt(pattern, callback, answers);
    lemma_after_concatenation(start, before, attempt.ops);
    let alias = AliasView { pattern, enabled: true };
    let make = ContextOp::NewAlias { alias, outcome: answers.entry };
    let rest = entry_attempt(ALIAS_TABLE@, callback, answers);
    lemma_after_first(state, make, rest.ops);
    lemma_entry(state.after(make), ALIAS_TABLE@, callback, answers);
}

/// A script that adds a trigger gets a number, and under this number there is from then
/// on an enabled trigger for its pattern, in the table that it is meant for. Nothing
/// else changes, and nothing at all if the script is told of an error. The object that
/// is made is a new one.
pub proof fn law_added_trigger_is_registered<'lua>(
    start: Registered<'lua>,
    before: Seq<ContextOp<'lua>>,
    pattern: Seq<char>,
    gag: bool,
    raw: bool,
    prompt: bool,
    callback: Function<'lua>,
    answers: EntryAnswers<'lua>,
    after: Seq<ContextOp<'lua>>,
    res: Result<u32, String>,
)
    requires
        trigger_added(before, pattern, gag, raw, prompt, callback, answers, after, res),
        answers.entry matches Ok(entry) ==> start.after_all(before).only_at(entry, None),
    ensures
        ({
            let old_state = start.after_all(before);
            let new_state = start.after_all(after);
            &&& res matches Ok(number) ==> {
                &&& number_after(answers.last->Ok_0) == Some(number)
                &&& new_state.trigger_at(prompt, number) == Some(
                    TriggerView { pattern, gag, raw, enabled: true },
                )
                &&& new_state.same_triggers(old_state, Some((prompt, number)))
            }
            &&& res is Err ==> new_state.same_triggers(old_state, None)
            &&& new_state.same_aliases(old_state, None)
        }),
{
    lemma_tables_differ();
    let state = start.after_all(before);
    let attempt = trigger_attempt(pattern, gag, raw, prompt, callback, answers);
    lemma_after_concatenation(start, before, attempt.ops);
    let trigger = TriggerView { pattern, gag, raw, enabled: true };
    let make = ContextOp::NewTrigger { trigger, outcome: answers.entry };
    let rest = entry_attempt(spec_trigger_table(prompt), callback, answers);
    lemma_after_first(state, make, rest.ops);
    lemma_entry(state.after(make), spec_trigger_table(prompt), callback, answers);
}

/// The options of a trigger decide what it is: adding one with options is reading them
/// and adding the trigger that they want, and reading them registers nothing.
pub proof fn law_options_decide_the_trigger<'lua>(
    start: Registered<'lua>,
    before: Seq<ContextOp<'lua>>,
    pattern: Seq<char>,
    options: Table<'lua>,
    wanted: OptionAnswers,
    callback: Function<'lua>,
    answers: EntryAnswers<'lua>,
    after: Seq<ContextOp<'lua>>,
    number: u32,
)
    requires
        wanted_trigger_added(
            before,
            pattern,
            options,
            wanted,
            callback,
            answers,
            after,
            Ok(number),
        ),
    ensures
        wanted.gag is Ok,
        wanted.raw is Ok,
        wanted.prompt is Ok,
        exists|read: Seq<ContextOp<'lua>>|
            {
                &&& start.after_all(read) == start.after_all(before)
                &&& #[trigger] trigger_added(
                    read,
                    pattern,
                    wanted.gag->Ok_0,
                    wanted.raw->Ok_0,
                    wanted.prompt->Ok_0,
                    callback,
                    answers,
                    after,
                    Ok(number),
                )
            },
{
    let attempt = wanted_trigger_attempt(pattern, options, wanted, callback, answers);
    let gag = attempt.ops[0];
    let raw = attempt.ops[1];
    let prompt = attempt.ops[2];
    let read = before.push(gag).push(raw).push(prompt);
    let rest = trigger_attempt(
        pattern,
        wanted.gag->Ok_0,
        wanted.raw->Ok_0,
        wanted.prompt->Ok_0,
        callback,
        answers,
    );
    assert(after =~= read + rest.ops);
    reveal_with_fuel(Registered::after_all, 4);
    assert(read.drop_last() =~= before.push(gag).push(raw));
    assert(read.drop_last().drop_last() =~= before.push(gag));
    assert(read.drop_last().drop_last().drop_last() =~= before);
    assert(trigger_added(
        read,
        pattern,
        wanted.gag->Ok_0,
        wanted.raw->Ok_0,
        wanted.prompt->Ok_0,
        callback,
        answers,
        after,
        Ok(number),
    ));
}

/// An alias that a script has taken away is not registered any more, and nothing else
/// changes.
pub proof fn law_removed_alias_is_gone<'lua>(
    start: Registered<'lua>,
    before: Seq<ContextOp<'lua>>,
    number: u32,
    answer: Result<(), Seq<char>>,
    after: Seq<ContextOp<'lua>>,
)
    requires
        requested(before, alias_removal(number, answer), after, Ok(())),
    ensures
        start.after_all(after).alias_at(number) is None,
        start.after_all(after).same_aliases(start.after_all(before), Some(number)),
        start.after_all(after).same_triggers(start.after_all(before), None),
{
    lemma_tables_differ();
    let op = alias_removal(number, answer);
    let state = start.after_all(before);
    lemma_after_concatenation(start, before, seq![op] + Seq::empty());
    lemma_after_first(state, op, Seq::empty());
    assert(state.after(op).after_all(Seq::empty()) == state.after(op));
}

/// A trigger that a script has taken away is in neither table any more, and nothing
/// else changes.
pub proof fn law_removed_trigger_is_gone<'lua>(
    start: Registered<'lua>,
    before: Seq<ContextOp<'lua>>,
    number: u32,
    first: Result<(), Seq<char>>,
    second: Result<(), Seq<char>>,
    after: Seq<ContextOp<'lua>>,
)
    requires
        trigger_removed(before, number, first, second, after, Ok(())),
    ensures
        start.after_all(after).trigger_at(false, number) is None,
        start.after_all(after).trigger_at(true, number) is None,
        forall|prompt: bool, other: u32|
            other != number ==> #[trigger] start.after_all(after).trigger_at(prompt, other)
                == start.after_all(before).trigger_at(prompt, other),
        start.after_all(after).same_aliases(start.after_all(before), None),
{
    lemma_tables_differ();
    let state = start.after_all(before);
    let ops = removal_attempt(number, first, second).ops;
    lemma_after_concatenation(start, before, ops);
    let clear = ContextOp::ClearEntry { table: TRIGGER_TABLE@, number, outcome: first };
    let other = ContextOp::ClearEntry {
        table: PROMPT_TRIGGER_TABLE@,
        number,
        outcome: second,
    };
    lemma_after_first(state, clear, seq![other] + Seq::empty());
    lemma_after_first(state.after(clear), other, Seq::empty());
    let end = state.after(clear).after(other);
    assert(end.after_all(Seq::empty()) == end);
    assert(start.after_all(after) == end);
}

/// An alias that a script has turned on or off is as it was but for that, and nothing
/// else changes, where the interpreter finds the object that is registered.
pub proof fn law_switched_alias_is_switched<'lua>(
    start: Registered<'lua>,
    before: Seq<ContextOp<'lua>>,
    number: u32,
    enabled: bool,
    answers: SwitchAnswers<'lua>,
    after: Seq<ContextOp<'lua>>,
    alias: AliasView,
)
    requires
        alias_switched(before, number, enabled, answers, after, Ok(())),
        start.after_all(before).alias_at(number) == Some(alias),
        ({
            let entry = start.after_all(before).places[(ALIAS_TABLE@, number)];
            &&& answers.found == Ok::<Option<AnyUserData<'lua>>, Seq<char>>(Some(entry))
            &&& start.after_all(before).only_at(entry, Some((ALIAS_TABLE@, number)))
        }),
    ensures
        start.after_all(after).alias_at(number) == Some(AliasView { enabled, ..alias }),
        start.after_all(after).same_aliases(start.after_all(before), Some(number)),
        start.after_all(after).same_triggers(start.after_all(before), None),
{
    let state = start.after_all(before);
    let entry = state.places[(ALIAS_TABLE@, number)];
    lemma_after_concatenation(start, before, alias_switch_attempt(number, enabled, answers).ops);
    let find = ContextOp::FindEntry { table: ALIAS_TABLE@, number, outcome: answers.found };
    let turn = ContextOp::SwitchAlias { entry, enabled, outcome: answers.switched };
    lemma_after_first(state, find, seq![turn] + Seq::empty());
    lemma_after_first(state, turn, Seq::empty());
    assert(state.after(turn).after_all(Seq::empty()) == state.after(turn));
}

/// A trigger that a script has turned on or off is as it was but for that, and nothing
/// else changes, where the interpreter finds the object that is registered.
pub proof fn law_switched_trigger_is_switched<'lua>(
    start: Registered<'lua>,
    before: Seq<ContextOp<'lua>>,
    prompt: bool,
    number: u32,
    enabled: bool,
    answers: SwitchAnswers<'lua>,
    after: Seq<ContextOp<'lua>>,
    trigger: TriggerView,
)
    requires
        trigger_switched(before, number, enabled, answers, after, Ok(())),
        start.after_all(before).trigger_at(prompt, number) == Some(trigger),
        ({
            let place = (spec_trigger_table(prompt), number);
            let entry = start.after_all(before).places[place];
            &&& start.after_all(before).only_at(entry, Some(place))
            &&& if prompt {
                &&& answers.found == Ok::<Option<AnyUserData<'lua>>, Seq<char>>(None)
                &&& answers.other == Ok::<Option<AnyUserData<'lua>>, Seq<char>>(Some(entry))
            } else {
                answers.found == Ok::<Option<AnyUserData<'lua>>, Seq<char>>(Some(entry))
            }
        }),
    ensures
        start.after_all(after).trigger_at(prompt, number) == Some(
            TriggerView { enabled, ..trigger },
        ),
        start.after_all(after).same_triggers(start.after_all(before), Some((prompt, number))),
        start.after_all(after).same_aliases(start.after_all(before), None),
{
    lemma_tables_differ();
    let state = start.after_all(before);
    let entry = state.places[(spec_trigger_table(prompt), number)];
    lemma_after_concatenation(start, before, trigger_switch_attempt(number, enabled, answers).ops);
    let find = ContextOp::FindEntry { table: TRIGGER_TABLE@, number, outcome: answers.found };
    let turn = ContextOp::SwitchTrigger { entry, enabled, outcome: answers.switched };
    lemma_after_first(state, turn, Seq::empty());
    assert(state.after(turn).after_all(Seq::empty()) == state.after(turn));
    if prompt {
        let again = ContextOp::FindEntry {
            table: PROMPT_TRIGGER_TABLE@,
            number,
            outcome: answers.other,
        };
        lemma_after_first(state, find, seq![again] + (seq![turn] + Seq::empty()));
        lemma_after_first(state, again, seq![turn] + Seq::empty());
    } else {
        lemma_after_first(state, find, seq![turn] + Seq::empty());
    }
}

/// As long as each alias and trigger gets the number after the one that was stored
/// last, no two of them ever have the same, even if some are taken away in between.
pub proof fn law_numbers_are_never_reused(start: Option<u32>, numbers: Seq<u32>)
    requires
        forall|i: int| #![trigger numbers[i]]
            0 <= i < numbers.len() ==> number_after(
                if i == 0 {
                    start
                } else {
                    Some(numbers[i - 1])
                },
            ) == Some(numbers[i]),
    ensures
        forall|i: int, j: int|
            0 <= i < j < numbers.len() ==> #[trigger] numbers[i] < #[trigger] numbers[j],
    decreases numbers.len(),
{
    if numbers.len() > 0 {
        let front = numbers.drop_last();
        assert forall|i: int| #![trigger front[i]] 0 <= i < front.len() implies number_after(
            if i == 0 {
                start
            } else {
                Some(front[i - 1])
            },
        ) == Some(front[i]) by {
            assert(numbers[i] == front[i]);
            if i > 0 {
                assert(numbers[i - 1] == front[i - 1]);
            }
        }
        law_numbers_are_never_reused(start, front);
        assert forall|i: int, j: int| 0 <= i < j < numbers.len() implies #[trigger] numbers[i]
            < #[trigger] numbers[j] by {
            if j == numbers.len() - 1 {
                assert(numbers[j - 1] < numbers[j]);
                if i < j - 1 {
                    assert(front[i] < front[j - 1]);
                }
            } else {
                assert(front[i] < front[j]);
            }
        }
    }
}

/// The visits find the aliases that are registered, under the numbers that they have.
pub open spec fn finds_aliases(
    state: Registered<'_>,
    numbers: Seq<u32>,
    steps: Seq<AliasStep>,
) -> bool {
    &&& numbers.len() == steps.len()
    &&& forall|i: int|
        0 <= i < steps.len() ==> (#[trigger] steps[i]).read == Ok::<Option<AliasView>, Seq<char>>(
            state.alias_at(numbers[i]),
        )
    &&& forall|number: u32| #[trigger] state.alias_at(number) is Some ==> numbers.contains(number)
}

/// What the user types is held against the aliases that are registered, against each of
/// them and against no other.
pub proof fn law_registered_aliases_decide(
    state: Registered<'_>,
    numbers: Seq<u32>,
    before: ScriptView,
    line: LineView,
    listed: Result<(RegistryKey, Seq<RegistryKey>), Seq<char>>,
    steps: Seq<AliasStep>,
    after: ScriptView,
    called: bool,
)
    requires
        aliases_checked(before, line, listed, steps, after, Ok(called)),
        finds_aliases(state, numbers, steps),
    ensures
        called <==> exists|number: u32|
            (#[trigger] state.alias_at(number)) matches Some(alias) && alias.captures(line)
                is Some,
        forall|number: u32|
            (#[trigger] state.alias_at(number)) matches Some(alias) ==> exists|i: int|
                0 <= i < steps.len() && (#[trigger] steps[i]).captures(line) == alias.captures(
                    line,
                ) && numbers[i] == number,
{
    assert forall|number: u32|
        (#[trigger] state.alias_at(number)) matches Some(alias) implies exists|i: int|
        0 <= i < steps.len() && (#[trigger] steps[i]).captures(line)
            == state.alias_at(number)->0.captures(line) && numbers[i] == number by {
        let i = choose|i: int| 0 <= i < numbers.len() && numbers[i] == number;
        assert(steps[i].captures(line) == state.alias_at(number)->0.captures(line));
    }
    if called {
        let i = choose|i: int|
            0 <= i < steps.len() && (#[trigger] steps[i]).captures(line) is Some;
        let number = numbers[i];
        assert(state.alias_at(number) is Some);
    }
    if exists|number: u32|
        (#[trigger] state.alias_at(number)) matches Some(alias) && alias.captures(line) is Some {
        let number = choose|number: u32|
            (#[trigger] state.alias_at(number)) matches Some(alias) && alias.captures(line)
                is Some;
        let i = choose|i: int| 0 <= i < numbers.len() && numbers[i] == number;
        assert(steps[i].captures(line) is Some);
        assert(alias_called(line, steps));
    }
}

/// The visits find the triggers that are registered, under the numbers that they have.
pub open spec fn finds_triggers(
    state: Registered<'_>,
    prompt: bool,
    numbers: Seq<u32>,
    steps: Seq<TriggerStep>,
) -> bool {
    &&& numbers.len() == steps.len()
    &&& forall|i: int|
        0 <= i < steps.len() ==> (#[trigger] steps[i]).read == Ok::<
            Option<TriggerView>,
            Seq<char>,
        >(state.trigger_at(prompt, numbers[i]))
    &&& forall|number: u32| #[trigger]
        state.trigger_at(prompt, number) is Some ==> numbers.contains(number)
}

/// A line is held against the triggers that are registered for lines of its sort,
/// against each of them and against no other.
pub proof fn law_registered_triggers_decide(
    state: Registered<'_>,
    prompt: bool,
    numbers: Seq<u32>,
    before: ScriptView,
    line: LineView,
    listed: Result<(RegistryKey, Seq<RegistryKey>), Seq<char>>,
    steps: Seq<TriggerStep>,
    after: ScriptView,
    line_after: LineView,
)
    requires
        triggers_checked(
            before,
            spec_trigger_table(prompt),
            line,
            listed,
            steps,
            after,
            line_after,
            Ok(()),
        ),
        finds_triggers(state, prompt, numbers, steps),
    ensures
        line_after.flags.matched <==> line.flags.matched || exists|number: u32|
            (#[trigger] state.trigger_at(prompt, number)) matches Some(trigger)
                && trigger.captures(line) is Some,
        forall|number: u32|
            (#[trigger] state.trigger_at(prompt, number)) matches Some(trigger) ==> exists|i: int|
                0 <= i < steps.len() && (#[trigger] steps[i]).captures(line) == trigger.captures(
                    line,
                ) && numbers[i] == number,
{
    assert forall|number: u32|
        (#[trigger] state.trigger_at(prompt, number)) matches Some(trigger) implies exists|i: int|
        0 <= i < steps.len() && (#[trigger] steps[i]).captures(line)
            == state.trigger_at(prompt, number)->0.captures(line) && numbers[i] == number by {
        let i = choose|i: int| 0 <= i < numbers.len() && numbers[i] == number;
        assert(steps[i].captures(line) == state.trigger_at(prompt, number)->0.captures(line));
    }
    assert forall|i: int| 0 <= i < steps.len() implies (
    #[trigger] steps[i]).fault(line) is None by {
        assert(steps.last() == steps[steps.len() - 1]);
    }
    law_matched_means_called(line, steps);
    if trigger_called(line, steps) {
        let i = choose|i: int|
            0 <= i < steps.len() && (#[trigger] steps[i]).captures(line) is Some;
        assert(state.trigger_at(prompt, numbers[i]) is Some);
    }
    if exists|number: u32|
        (#[trigger] state.trigger_at(prompt, number)) matches Some(trigger) && trigger.captures(
            line,
        ) is Some {
        let number = choose|number: u32|
            (#[trigger] state.trigger_at(prompt, number)) matches Some(trigger)
                && trigger.captures(line) is Some;
        let i = choose|i: int| 0 <= i < numbers.len() && numbers[i] == number;
        assert(steps[i].captures(line) is Some);
        assert(trigger_called(line, steps));
    }
}

/// A script that adds an alias and is given a number has had these requests made, in this
/// order, and no other: an enabled alias is made of its pattern, its callback is kept
/// with it, the number after the last one is taken and stored, and the alias is put under
/// it.
pub proof fn law_alias_is_added_step_by_step<'lua>(
    before: Seq<ContextOp<'lua>>,
    pattern: Seq<char>,
    callback: Function<'lua>,
    answers: EntryAnswers<'lua>,
    after: Seq<ContextOp<'lua>>,
    number: u32,
)
    requires
        alias_added(before, pattern, callback, answers, after, Ok(number)),
    ensures
        ({
            let entry = answers.entry->Ok_0;
            &&& regex_error(pattern) is None
            &&& answers.entry is Ok
            &&& answers.kept is Ok
            &&& answers.last is Ok
            &&& answers.stored is Ok
            &&& answers.put is Ok
            &&& number == match answers.last->Ok_0 {
                Some(last) => last + 1,
                None => 1,
            }
            &&& after == before + seq![
                ContextOp::NewAlias {
                    alias: AliasView { pattern, enabled: true },
                    outcome: answers.entry,
                },
                ContextOp::KeepCallback { entry, callback, outcome: answers.kept },
                ContextOp::GetNumber { name: LAST_NUMBER@, outcome: answers.last },
                ContextOp::SetNumber { name: LAST_NUMBER@, number, outcome: answers.stored },
                ContextOp::PutEntry {
                    table: ALIAS_TABLE@,
                    number,
                    entry,
                    outcome: answers.put,
                },
            ]
        }),
{
}

/// A script that adds a trigger and is given a number has had these requests made, in
/// this order, and no other: an enabled trigger is made of its pattern, its callback is
/// kept with it, the number after the last one is taken and stored, and the trigger is
/// put under it, among those for prompts or among the others.
pub proof fn law_trigger_is_added_step_by_step<'lua>(
    before: Seq<ContextOp<'lua>>,
    pattern: Seq<char>,
    gag: bool,
    raw: bool,
    prompt: bool,
    callback: Function<'lua>,
    answers: EntryAnswers<'lua>,
    after: Seq<ContextOp<'lua>>,
    number: u32,
)
    requires
        trigger_added(before, pattern, gag, raw, prompt, callback, answers, after, Ok(number)),
    ensures
        ({
            let entry = answers.entry->Ok_0;
            &&& regex_error(pattern) is None
            &&& answers.entry is Ok
            &&& answers.kept is Ok
            &&& answers.last is Ok
            &&& answers.stored is Ok
            &&& answers.put is Ok
            &&& number == match answers.last->Ok_0 {
                Some(last) => last + 1,
                None => 1,
            }
            &&& after == before + seq![
                ContextOp::NewTrigger {
                    trigger: TriggerView { pattern, gag, raw, enabled: true },
                    outcome: answers.entry,
                },
                ContextOp::KeepCallback { entry, callback, outcome: answers.kept },
                ContextOp::GetNumber { name: LAST_NUMBER@, outcome: answers.last },
                ContextOp::SetNumber { name: LAST_NUMBER@, number, outcome: answers.stored },
                ContextOp::PutEntry {
                    table: if prompt {
                        PROMPT_TRIGGER_TABLE@
                    } else {
                        TRIGGER_TABLE@
                    },
                    number,
                    entry,
                    outcome: answers.put,
                },
            ]
        }),
{
}

/// The options of a trigger are read by the names that scripts know.
pub proof fn law_options_are_read_by_name<'lua>(
    before: Seq<ContextOp<'lua>>,
    pattern: Seq<char>,
    options: Table<'lua>,
    wanted: OptionAnswers,
    callback: Function<'lua>,
    answers: EntryAnswers<'lua>,
    after: Seq<ContextOp<'lua>>,
    number: u32,
)
    requires
        wanted_trigger_added(
            before,
            pattern,
            options,
            wanted,
            callback,
            answers,
            after,
            Ok(number),
        ),
    ensures
        ({
            let n = before.len() as int;
            &&& after.len() > n + 2
            &&& after.take(n) == before
            &&& after[n] == (ContextOp::GetOption {
                table: options,
                name: "gag"@,
                outcome: wanted.gag,
            })
            &&& after[n + 1] == (ContextOp::GetOption {
                table: options,
                name: "raw"@,
                outcome: wanted.raw,
            })
            &&& after[n + 2] == (ContextOp::GetOption {
                table: options,
                name: "prompt"@,
                outcome: wanted.prompt,
            })
        }),
{
    assert(after.take(before.len() as int) =~= before);
}

/// The message of the error that a request ended in, if it did.
pub open spec fn error_in(op: ContextOp<'_>) -> Option<Seq<char>> {
    match op {
        ContextOp::NewAlias { outcome: Err(message), .. } => Some(message),
        ContextOp::NewTrigger { outcome: Err(message), .. } => Some(message),
        ContextOp::KeepCallback { outcome: Err(message), .. } => Some(message),
        ContextOp::GetNumber { outcome: Err(message), .. } => Some(message),
        ContextOp::SetNumber { outcome: Err(message), .. } => Some(message),
        ContextOp::PutEntry { outcome: Err(message), .. } => Some(message),
        ContextOp::ClearEntry { outcome: Err(message), .. } => Some(message),
        ContextOp::FindEntry { outcome: Err(message), .. } => Some(message),
        ContextOp::SwitchAlias { outcome: Err(message), .. } => Some(message),
        ContextOp::SwitchTrigger { outcome: Err(message), .. } => Some(message),
        ContextOp::PutFunction { outcome: Err(message), .. } => Some(message),
        ContextOp::SetFunction { outcome: Err(message), .. } => Some(message),
        ContextOp::SetFlag { outcome: Err(message), .. } => Some(message),
        ContextOp::GetOption { outcome: Err(message), .. } => Some(message),
        _ => None,
    }
}

/// A script that cannot add an alias is told why: what is wrong with its pattern, and then
/// nothing is asked, or what the interpreter said against the last request, or that no
/// number is left.
pub proof fn law_refused_alias_is_told_why<'lua>(
    before: Seq<ContextOp<'lua>>,
    pattern: Seq<char>,
    callback: Function<'lua>,
    answers: EntryAnswers<'lua>,
    after: Seq<ContextOp<'lua>>,
    message: String,
)
    requires
        alias_added(before, pattern, callback, answers, after, Err(message)),
    ensures
        match regex_error(pattern) {
            Some(wrong) => after == before && message@ == wrong,
            None => {
                &&& after.len() > before.len()
                &&& match error_in(after.last()) {
                    Some(said) => message@ == said,
                    None => answers.last matches Ok(Some(last)) && last == u32::MAX,
                }
            },
        },
{
}

/// A script that cannot add a trigger is told why: what is wrong with its pattern, and then
/// nothing is asked, or what the interpreter said against the last request, or that no
/// number is left.
pub proof fn law_refused_trigger_is_told_why<'lua>(
    before: Seq<ContextOp<'lua>>,
    pattern: Seq<char>,
    gag: bool,
    raw: bool,
    prompt: bool,
    callback: Function<'lua>,
    answers: EntryAnswers<'lua>,
    after: Seq<ContextOp<'lua>>,
    message: String,
)
    requires
        trigger_added(before, pattern, gag, raw, prompt, callback, answers, after, Err(message)),
    ensures
        match regex_error(pattern) {
            Some(wrong) => after == before && message@ == wrong,
            None => {
                &&& after.len() > before.len()
                &&& match error_in(after.last()) {
                    Some(said) => message@ == said,
                    None => answers.last matches Ok(Some(last)) && last == u32::MAX,
                }
            },
        },
{
}

/// Taking an alias away is one request, for its number and no other.
pub proof fn law_alias_removal_is_asked_for<'lua>(
    before: Seq<ContextOp<'lua>>,
    number: u32,
    answer: Result<(), Seq<char>>,
    after: Seq<ContextOp<'lua>>,
    res: Result<(), String>,
)
    requires
        requested(before, alias_removal(number, answer), after, res),
    ensures
        after == before.push(
            ContextOp::ClearEntry { table: ALIAS_TABLE@, number, outcome: answer },
        ),
        res is Ok <==> answer is Ok,
        answer matches Err(message) ==> res->Err_0@ == message,
{
    assert(after =~= before.push(alias_removal(number, answer)));
}

/// Taking a trigger away is one request for each table that it may be in, for its number
/// and no other.
pub proof fn law_trigger_removal_is_asked_for<'lua>(
    before: Seq<ContextOp<'lua>>,
    number: u32,
    first: Result<(), Seq<char>>,
    second: Result<(), Seq<char>>,
    after: Seq<ContextOp<'lua>>,
    res: Result<(), String>,
)
    requires
        trigger_removed(before, number, first, second, after, res),
    ensures
        ({
            let one = ContextOp::ClearEntry { table: TRIGGER_TABLE@, number, outcome: first };
            let two = ContextOp::ClearEntry {
                table: PROMPT_TRIGGER_TABLE@,
                number,
                outcome: second,
            };
            match (first, second) {
                (Ok(()), Ok(())) => after == before.push(one).push(two) && res is Ok,
                (Ok(()), Err(message)) => {
                    &&& after == before.push(one).push(two)
                    &&& res matches Err(told) && told@ == message
                },
                (Err(message), _) => {
                    &&& after == before.push(one)
                    &&& res matches Err(told) && told@ == message
                },
            }
        }),
{
    let one = ContextOp::ClearEntry { table: TRIGGER_TABLE@, number, outcome: first };
    let two = ContextOp::ClearEntry { table: PROMPT_TRIGGER_TABLE@, number, outcome: second };
    if first is Ok {
        assert(after =~= before.push(one).push(two));
    } else {
        assert(after =~= before.push(one));
    }
}

/// Turning an alias on or off is reading it under its number and turning what was read;
/// where nothing is there, nothing is turned and the script is told.
pub proof fn law_alias_switch_is_asked_for<'lua>(
    before: Seq<ContextOp<'lua>>,
    number: u32,
    enabled: bool,
    answers: SwitchAnswers<'lua>,
    after: Seq<ContextOp<'lua>>,
    res: Result<(), String>,
)
    requires
        alias_switched(before, number, enabled, answers, after, res),
    ensures
        ({
            let find = ContextOp::FindEntry {
                table: ALIAS_TABLE@,
                number,
                outcome: answers.found,
            };
            match answers.found {
                Ok(Some(entry)) => {
                    &&& after == before.push(find).push(
                        ContextOp::SwitchAlias { entry, enabled, outcome: answers.switched },
                    )
                    &&& res is Ok <==> answers.switched is Ok
                    &&& answers.switched matches Err(message) ==> res->Err_0@ == message
                },
                Ok(None) => after == before.push(find) && res is Err,
                Err(message) => {
                    &&& after == before.push(find)
                    &&& res matches Err(told) && told@ == message
                },
            }
        }),
{
}

/// Turning a trigger on or off is reading it under its number, among those for prompts
/// only if it is not among the others, and turning what was read; where nothing is
/// there, nothing is turned and the script is told.
pub proof fn law_trigger_switch_is_asked_for<'lua>(
    before: Seq<ContextOp<'lua>>,
    number: u32,
    enabled: bool,
    answers: SwitchAnswers<'lua>,
    after: Seq<ContextOp<'lua>>,
    res: Result<(), String>,
)
    requires
        trigger_switched(before, number, enabled, answers, after, res),
    ensures
        ({
            let find = ContextOp::FindEntry {
                table: TRIGGER_TABLE@,
                number,
                outcome: answers.found,
            };
            let again = ContextOp::FindEntry {
                table: PROMPT_TRIGGER_TABLE@,
                number,
                outcome: answers.other,
            };
            match (answers.found, answers.other) {
                (Ok(Some(entry)), _) => {
                    &&& after == before.push(find).push(
                        ContextOp::SwitchTrigger { entry, enabled, outcome: answers.switched },
                    )
                    &&& res is Ok <==> answers.switched is Ok
                    &&& answers.switched matches Err(message) ==> res->Err_0@ == message
                },
                (Ok(None), Ok(Some(entry))) => {
                    &&& after == before.push(find).push(again).push(
                        ContextOp::SwitchTrigger { entry, enabled, outcome: answers.switched },
                    )
                    &&& res is Ok <==> answers.switched is Ok
                    &&& answers.switched matches Err(message) ==> res->Err_0@ == message
                },
                (Ok(None), Ok(None)) => {
                    &&& after == before.push(find).push(again)
                    &&& res is Err
                },
                (Ok(None), Err(message)) => {
                    &&& after == before.push(find).push(again)
                    &&& res matches Err(told) && told@ == message
                },
                (Err(message), _) => {
                    &&& after == before.push(find)
                    &&& res matches Err(told) && told@ == message
                },
            }
        }),
{
}

/// A function for a key is kept under its name where keys are looked up.
pub proof fn law_binding_goes_where_keys_are_looked_up<'lua>(
    before: Seq<ContextOp<'lua>>,
    key: Seq<char>,
    function: Function<'lua>,
    answer: Result<(), Seq<char>>,
    after: Seq<ContextOp<'lua>>,
    res: Result<(), String>,
)
    requires
        requested(before, binding(key, function, answer), after, res),
    ensures
        after == before.push(
            ContextOp::PutFunction {
                table: COMMAND_BINDING_TABLE@,
                name: key,
                function,
                outcome: answer,
            },
        ),
        res is Ok <==> answer is Ok,
        answer matches Err(message) ==> res->Err_0@ == message,
{
    assert(after =~= before.push(binding(key, function, answer)));
}

/// A listener is kept under its kind where GMCP messages are looked up.
pub proof fn law_listener_goes_where_messages_are_looked_up<'lua>(
    before: Seq<ContextOp<'lua>>,
    kind: Seq<char>,
    function: Function<'lua>,
    answer: Result<(), Seq<char>>,
    after: Seq<ContextOp<'lua>>,
    res: Result<(), String>,
)
    requires
        requested(before, gmcp_listener(kind, function, answer), after, res),
    ensures
        after == before.push(
            ContextOp::PutFunction {
                table: GMCP_LISTENER_TABLE@,
                name: kind,
                function,
                outcome: answer,
            },
        ),
        res is Ok <==> answer is Ok,
        answer matches Err(message) ==> res->Err_0@ == message,
{
    assert(after =~= before.push(gmcp_listener(kind, function, answer)));
}

/// A hook is kept in the global of its name.
pub proof fn law_hook_goes_into_its_global<'lua>(
    before: Seq<ContextOp<'lua>>,
    name: Seq<char>,
    function: Function<'lua>,
    answer: Result<(), Seq<char>>,
    after: Seq<ContextOp<'lua>>,
    res: Result<(), String>,
)
    requires
        requested(before, hook(name, function, answer), after, res),
    ensures
        after == before.push(ContextOp::SetFunction { name, function, outcome: answer }),
        res is Ok <==> answer is Ok,
        answer matches Err(message) ==> res->Err_0@ == message,
{
    assert(after =~= before.push(hook(name, function, answer)));
}

/// A request to hide a line makes the flag true that is read after a callback.
pub proof fn law_hiding_sets_the_flag<'lua>(
    before: Seq<ContextOp<'lua>>,
    answer: Result<(), Seq<char>>,
    after: Seq<ContextOp<'lua>>,
    res: Result<(), String>,
)
    requires
        requested(before, hiding(answer), after, res),
    ensures
        after == before.push(
            ContextOp::SetFlag { name: GAG_NEXT_TRIGGER_LINE@, value: true, outcome: answer },
        ),
        res is Ok <==> answer is Ok,
        answer matches Err(message) ==> res->Err_0@ == message,
{
    assert(after =~= before.push(hiding(answer)));
}

} // verus!
