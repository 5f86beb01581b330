//! What scripts ask of the client when they register something: aliases, triggers,
//! bindings, listeners and hooks.
//!
//! A script calls one of these functions in the middle of its run. What is stated of a
//! function is what it asks of the interpreter during the call, in which order, and
//! what it makes of the answers.

use super::blight::BlightMud;
use super::constants::{
    ALIAS_TABLE, COMMAND_BINDING_TABLE, GAG_NEXT_TRIGGER_LINE, GMCP_LISTENER_TABLE, LAST_NUMBER,
    ON_CONNCTION_CALLBACK, ON_DISCONNECT_CALLBACK, ON_GMCP_READY_CALLBACK, PROMPT_TRIGGER_TABLE,
    TRIGGER_TABLE,
};
use super::interpreter::outcome;
use super::matcher::{regex_error, Alias, AliasView, Trigger, TriggerView};
use rlua::{AnyUserData, Context, Error, Function, Table, UserDataMethods, Value};
use vstd::prelude::*;

verus! {

/// A handle to an interpreter during a call: the outside type `rlua::Context`.
#[verifier::external_type_specification]
#[verifier::external_body]
pub struct ExContext<'lua>(Context<'lua>);

/// A Lua function: the outside type `rlua::Function`.
#[verifier::external_type_specification]
#[verifier::external_body]
pub struct ExFunction<'lua>(Function<'lua>);

/// A Lua table: the outside type `rlua::Table`.
#[verifier::external_type_specification]
#[verifier::external_body]
pub struct ExTable<'lua>(Table<'lua>);

/// An object in an interpreter: the outside type `rlua::AnyUserData`.
#[verifier::external_type_specification]
#[verifier::external_body]
pub struct ExAnyUserData<'lua>(AnyUserData<'lua>);

/// A call of the client by a script. The handle never leaves it, so that nothing is
/// asked of the interpreter but what its record tells.
pub struct Callback<'lua> {
    ctx: Context<'lua>,
}

/// A request to an interpreter during a call, with its outcome: what it gave, or the
/// message of the error that it ended in.
#[allow(inconsistent_fields)]
pub ghost enum ContextOp<'lua> {
    /// Make an object of an alias.
    NewAlias { alias: AliasView, outcome: Result<AnyUserData<'lua>, Seq<char>> },
    /// Make an object of a trigger.
    NewTrigger { trigger: TriggerView, outcome: Result<AnyUserData<'lua>, Seq<char>> },
    /// Keep a function with an object.
    KeepCallback {
        entry: AnyUserData<'lua>,
        callback: Function<'lua>,
        outcome: Result<(), Seq<char>>,
    },
    /// Read a number that scripts do not see, if there is one.
    GetNumber { name: Seq<char>, outcome: Result<Option<u32>, Seq<char>> },
    /// Store a number that scripts do not see.
    SetNumber { name: Seq<char>, number: u32, outcome: Result<(), Seq<char>> },
    /// Put an object under a number of the table that a global holds.
    PutEntry {
        table: Seq<char>,
        number: u32,
        entry: AnyUserData<'lua>,
        outcome: Result<(), Seq<char>>,
    },
    /// Empty the place under a number of the table that a global holds.
    ClearEntry { table: Seq<char>, number: u32, outcome: Result<(), Seq<char>> },
    /// Read the object under a number of the table that a global holds, if there is one.
    FindEntry {
        table: Seq<char>,
        number: u32,
        outcome: Result<Option<AnyUserData<'lua>>, Seq<char>>,
    },
    /// Turn an alias on or off.
    SwitchAlias { entry: AnyUserData<'lua>, enabled: bool, outcome: Result<(), Seq<char>> },
    /// Turn a trigger on or off.
    SwitchTrigger { entry: AnyUserData<'lua>, enabled: bool, outcome: Result<(), Seq<char>> },
    /// Put a function under a name of the table that a global holds.
    PutFunction {
        table: Seq<char>,
        name: Seq<char>,
        function: Function<'lua>,
        outcome: Result<(), Seq<char>>,
    },
    /// Make a global a function.
    SetFunction { name: Seq<char>, function: Function<'lua>, outcome: Result<(), Seq<char>> },
    /// Make a global a truth value.
    SetFlag { name: Seq<char>, value: bool, outcome: Result<(), Seq<char>> },
    /// Read a truth value under a name of a table.
    GetOption { table: Table<'lua>, name: Seq<char>, outcome: Result<bool, Seq<char>> },
}

/// The requests made during a call through this module, oldest first.
pub uninterp spec fn callback_history(call: Callback<'_>) -> Seq<ContextOp<'_>>;

/// Wraps `Context::create_userdata`, for an alias.
#[verifier::external_body]
fn new_alias<'lua>(
    call: &mut Callback<'lua>,
    alias: Alias,
) -> (res: Result<AnyUserData<'lua>, String>)
    ensures
        callback_history(*final(call)) == callback_history(*old(call)).push(
            ContextOp::NewAlias { alias: alias@, outcome: outcome(res) },
        ),
{
    call.ctx.create_userdata(alias).map_err(|error: Error| error.to_string())
}

/// Wraps `Context::create_userdata`, for a trigger.
#[verifier::external_body]
fn new_trigger<'lua>(
    call: &mut Callback<'lua>,
    trigger: Trigger,
) -> (res: Result<AnyUserData<'lua>, String>)
    ensures
        callback_history(*final(call)) == callback_history(*old(call)).push(
            ContextOp::NewTrigger { trigger: trigger@, outcome: outcome(res) },
        ),
{
    call.ctx.create_userdata(trigger).map_err(|error: Error| error.to_string())
}

/// Wraps `AnyUserData::set_user_value`, for a function.
#[verifier::external_body]
fn keep_callback<'lua>(
    call: &mut Callback<'lua>,
    entry: &AnyUserData<'lua>,
    callback: Function<'lua>,
) -> (res: Result<(), String>)
    ensures
        callback_history(*final(call)) == callback_history(*old(call)).push(
            ContextOp::KeepCallback { entry: *entry, callback, outcome: outcome(res) },
        ),
{
    entry.set_user_value(callback).map_err(|error: Error| error.to_string())
}

/// Wraps `Context::named_registry_value`, for a number.
#[verifier::external_body]
fn get_number<'lua>(
    call: &mut Callback<'lua>,
    name: &str,
) -> (res: Result<Option<u32>, String>)
    ensures
        callback_history(*final(call)) == callback_history(*old(call)).push(
            ContextOp::GetNumber { name: name@, outcome: outcome(res) },
        ),
{
    call.ctx.named_registry_value(name).map_err(|error: Error| error.to_string())
}

/// Wraps `Context::set_named_registry_value`, for a number.
#[verifier::external_body]
fn set_number<'lua>(
    call: &mut Callback<'lua>,
    name: &str,
    number: u32,
) -> (res: Result<(), String>)
    ensures
        callback_history(*final(call)) == callback_history(*old(call)).push(
            ContextOp::SetNumber { name: name@, number, outcome: outcome(res) },
        ),
{
    call.ctx.set_named_registry_value(name, number).map_err(|error: Error| error.to_string())
}

/// Wraps `Table::set` on a table that a global holds, for an object under a number.
#[verifier::external_body]
fn put_entry<'lua>(
    call: &mut Callback<'lua>,
    table: &str,
    number: u32,
    entry: AnyUserData<'lua>,
) -> (res: Result<(), String>)
    ensures
        callback_history(*final(call)) == callback_history(*old(call)).push(
            ContextOp::PutEntry { table: table@, number, entry, outcome: outcome(res) },
        ),
{
    let table: Result<Table, Error> = call.ctx.globals().get(table);
    table.and_then(|table| table.set(number, entry)).map_err(|error: Error| error.to_string())
}

/// Wraps `Table::set` on a table that a global holds, for nothing under a number.
#[verifier::external_body]
fn clear_entry<'lua>(
    call: &mut Callback<'lua>,
    table: &str,
    number: u32,
) -> (res: Result<(), String>)
    ensures
        callback_history(*final(call)) == callback_history(*old(call)).push(
            ContextOp::ClearEntry { table: table@, number, outcome: outcome(res) },
        ),
{
    let table: Result<Table, Error> = call.ctx.globals().get(table);
    table.and_then(|table| table.set(number, Value::Nil)).map_err(|error: Error| error.to_string())
}

/// Wraps `Table::get` on a table that a global holds, for the object under a number. It
/// gives nothing where the table has nothing there.
#[verifier::external_body]
fn find_entry<'lua>(
    call: &mut Callback<'lua>,
    table: &str,
    number: u32,
) -> (res: Result<Option<AnyUserData<'lua>>, String>)
    ensures
        callback_history(*final(call)) == callback_history(*old(call)).push(
            ContextOp::FindEntry { table: table@, number, outcome: outcome(res) },
        ),
{
    let table: Result<Table, Error> = call.ctx.globals().get(table);
    table.and_then(|table| table.get(number)).map_err(|error: Error| error.to_string())
}

/// Wraps `AnyUserData::borrow_mut`, for an alias to be turned on or off. It fails while
/// the callback of the alias runs.
#[verifier::external_body]
fn switch_alias<'lua>(
    call: &mut Callback<'lua>,
    entry: &AnyUserData<'lua>,
    enabled: bool,
) -> (res: Result<(), String>)
    ensures
        callback_history(*final(call)) == callback_history(*old(call)).push(
            ContextOp::SwitchAlias { entry: *entry, enabled, outcome: outcome(res) },
        ),
{
    entry.borrow_mut::<Alias>().map(|mut alias| alias.enable(enabled)).map_err(
        |error| error.to_string(),
    )
}

/// Wraps `AnyUserData::borrow_mut`, for a trigger to be turned on or off. It fails while
/// the callback of the trigger runs.
#[verifier::external_body]
fn switch_trigger<'lua>(
    call: &mut Callback<'lua>,
    entry: &AnyUserData<'lua>,
    enabled: bool,
) -> (res: Result<(), String>)
    ensures
        callback_history(*final(call)) == callback_history(*old(call)).push(
            ContextOp::SwitchTrigger { entry: *entry, enabled, outcome: outcome(res) },
        ),
{
    entry.borrow_mut::<Trigger>().map(|mut trigger| trigger.enable(enabled)).map_err(
        |error| error.to_string(),
    )
}

/// Wraps `Table::set` on a table that a global holds, for a function under a name.
#[verifier::external_body]
fn put_function<'lua>(
    call: &mut Callback<'lua>,
    table: &str,
    name: String,
    function: Function<'lua>,
) -> (res: Result<(), String>)
    ensures
        callback_history(*final(call)) == callback_history(*old(call)).push(
            ContextOp::PutFunction { table: table@, name: name@, function, outcome: outcome(res) },
        ),
{
    let table: Result<Table, Error> = call.ctx.globals().get(table);
    table.and_then(|table| table.set(name, function)).map_err(|error: Error| error.to_string())
}

/// Wraps `Table::set` on the globals, for a function.
#[verifier::external_body]
fn set_function<'lua>(
    call: &mut Callback<'lua>,
    name: &str,
    function: Function<'lua>,
) -> (res: Result<(), String>)
    ensures
        callback_history(*final(call)) == callback_history(*old(call)).push(
            ContextOp::SetFunction { name: name@, function, outcome: outcome(res) },
        ),
{
    call.ctx.globals().set(name, function).map_err(|error: Error| error.to_string())
}

/// Wraps `Table::set` on the globals, for a truth value.
#[verifier::external_body]
fn set_flag<'lua>(
    call: &mut Callback<'lua>,
    name: &str,
    value: bool,
) -> (res: Result<(), String>)
    ensures
        callback_history(*final(call)) == callback_history(*old(call)).push(
            ContextOp::SetFlag { name: name@, value, outcome: outcome(res) },
        ),
{
    call.ctx.globals().set(name, value).map_err(|error: Error| error.to_string())
}

/// Wraps `Table::get`, for a truth value. A table without the name gives `false`.
#[verifier::external_body]
fn get_option<'lua>(
    call: &mut Callback<'lua>,
    table: &Table<'lua>,
    name: &str,
) -> (res: Result<bool, String>)
    ensures
        callback_history(*final(call)) == callback_history(*old(call)).push(
            ContextOp::GetOption { table: *table, name: name@, outcome: outcome(res) },
        ),
{
    table.get(name).map_err(|error: Error| error.to_string())
}

/// The message of an error, if it is one.
pub open spec fn error_of<T>(outcome: Result<T, Seq<char>>) -> Option<Seq<char>> {
    match outcome {
        Ok(_) => None,
        Err(message) => Some(message),
    }
}

/// What the interpreter says against a request, if anything.
pub open spec fn refusal(op: ContextOp<'_>) -> Option<Seq<char>> {
    match op {
        ContextOp::NewAlias { outcome, .. } => error_of(outcome),
        ContextOp::NewTrigger { outcome, .. } => error_of(outcome),
        ContextOp::KeepCallback { outcome, .. } => error_of(outcome),
        ContextOp::GetNumber { outcome, .. } => error_of(outcome),
        ContextOp::SetNumber { outcome, .. } => error_of(outcome),
        ContextOp::PutEntry { outcome, .. } => error_of(outcome),
        ContextOp::ClearEntry { outcome, .. } => error_of(outcome),
        ContextOp::FindEntry { outcome, .. } => error_of(outcome),
        ContextOp::SwitchAlias { outcome, .. } => error_of(outcome),
        ContextOp::SwitchTrigger { outcome, .. } => error_of(outcome),
        ContextOp::PutFunction { outcome, .. } => error_of(outcome),
        ContextOp::SetFunction { outcome, .. } => error_of(outcome),
        ContextOp::SetFlag { outcome, .. } => error_of(outcome),
        ContextOp::GetOption { outcome, .. } => error_of(outcome),
    }
}

/// The requests that a call makes, and what it comes to.
pub ghost struct Attempt<'lua, T> {
    pub ops: Seq<ContextOp<'lua>>,
    pub result: Result<T, Seq<char>>,
}

/// Nothing is left to ask.
pub open spec fn done<'lua, T>(value: T) -> Attempt<'lua, T> {
    Attempt { ops: Seq::empty(), result: Ok(value) }
}

/// The call cannot go on.
pub open spec fn failed<'lua, T>(message: Seq<char>) -> Attempt<'lua, T> {
    Attempt { ops: Seq::empty(), result: Err(message) }
}

/// `op` is asked, and `rest` follows unless the interpreter refuses.
pub open spec fn asked<'lua, T>(op: ContextOp<'lua>, rest: Attempt<'lua, T>) -> Attempt<'lua, T> {
    match refusal(op) {
        Some(message) => Attempt { ops: seq![op], result: Err(message) },
        None => Attempt { ops: seq![op] + rest.ops, result: rest.result },
    }
}

/// A call has gone the way of `attempt`.
pub open spec fn went<'lua, T>(
    before: Seq<ContextOp<'lua>>,
    attempt: Attempt<'lua, T>,
    after: Seq<ContextOp<'lua>>,
    res: Result<T, String>,
) -> bool {
    &&& after == before + attempt.ops
    &&& outcome(res) == attempt.result
}

/// What a script is told that wants one alias or trigger too many.
pub const NO_NUMBER_LEFT: &'static str = "no number is left";

/// What a script is told that turns on or off what is not there.
pub const NOTHING_THERE: &'static str = "there is nothing with this number";

/// The number that follows the one used last, if there is one.
pub open spec fn number_after(last: Option<u32>) -> Option<u32> {
    match last {
        Some(last) => if last < u32::MAX {
            Some((last + 1) as u32)
        } else {
            None
        },
        None => Some(1),
    }
}

/// The number of an alias or a trigger, given the one that was used last, if any.
pub fn next_number(last: Option<u32>) -> (number: Option<u32>)
    ensures
        number == number_after(last),
        last is None ==> number == Some(1u32),
        last matches Some(used) ==> if used == u32::MAX {
            number is None
        } else {
            number matches Some(next) && next == used + 1
        },
{
    match last {
        Some(last) => if last < u32::MAX {
            Some(last + 1)
        } else {
            None
        },
        None => Some(1),
    }
}

/// The global that holds the triggers for prompts, or those for other lines.
pub open spec fn spec_trigger_table(prompt: bool) -> Seq<char> {
    if prompt {
        PROMPT_TRIGGER_TABLE@
    } else {
        TRIGGER_TABLE@
    }
}

/// The global that holds the triggers for prompts, or those for other lines.
pub fn trigger_table(prompt: bool) -> (name: &'static str)
    ensures
        name@ == spec_trigger_table(prompt),
        prompt ==> name@ == PROMPT_TRIGGER_TABLE@,
        !prompt ==> name@ == TRIGGER_TABLE@,
{
    if prompt {
        PROMPT_TRIGGER_TABLE
    } else {
        TRIGGER_TABLE
    }
}

/// What the interpreter answers when an alias or a trigger is added.
pub ghost struct EntryAnswers<'lua> {
    pub entry: Result<AnyUserData<'lua>, Seq<char>>,
    pub kept: Result<(), Seq<char>>,
    pub last: Result<Option<u32>, Seq<char>>,
    pub stored: Result<(), Seq<char>>,
    pub put: Result<(), Seq<char>>,
}

/// An object gets its callback, a number of its own, and a place in a table.
pub open spec fn entry_attempt<'lua>(
    table: Seq<char>,
    callback: Function<'lua>,
    answers: EntryAnswers<'lua>,
) -> Attempt<'lua, u32> {
    let entry = answers.entry->Ok_0;
    asked(
        ContextOp::KeepCallback { entry, callback, outcome: answers.kept },
        asked(
            ContextOp::GetNumber { name: LAST_NUMBER@, outcome: answers.last },
            match number_after(answers.last->Ok_0) {
                Some(number) => asked(
                    ContextOp::SetNumber { name: LAST_NUMBER@, number, outcome: answers.stored },
                    asked(
                        ContextOp::PutEntry { table, number, entry, outcome: answers.put },
                        done(number),
                    ),
                ),
                None => failed(NO_NUMBER_LEFT@),
            },
        ),
    )
}

/// An object has been offered to a table with its callback.
pub open spec fn entry_added<'lua>(
    before: Seq<ContextOp<'lua>>,
    entry: AnyUserData<'lua>,
    callback: Function<'lua>,
    table: Seq<char>,
    answers: EntryAnswers<'lua>,
    after: Seq<ContextOp<'lua>>,
    res: Result<u32, String>,
) -> bool {
    &&& answers.entry == Ok::<AnyUserData<'lua>, Seq<char>>(entry)
    &&& went(before, entry_attempt(table, callback, answers), after, res)
}

/// Adds an object to a table with its callback, and gives its number.
fn add_entry<'lua>(
    call: &mut Callback<'lua>,
    entry: AnyUserData<'lua>,
    callback: Function<'lua>,
    table: &str,
) -> (res: Result<u32, String>)
    ensures
        exists|answers: EntryAnswers<'lua>| #[trigger]
            entry_added(
                callback_history(*old(call)),
                entry,
                callback,
                table@,
                answers,
                callback_history(*final(call)),
                res,
            ),
{
    let ghost before = callback_history(*call);
    let kept = keep_callback(call, &entry, callback);
    let ghost mut answers = EntryAnswers {
        entry: Ok(entry),
        kept: outcome(kept),
        last: Ok(None),
        stored: Ok(()),
        put: Ok(()),
    };
    let res = match kept {
        Ok(()) => {
            let last = get_number(call, LAST_NUMBER);
            proof {
                answers = EntryAnswers { last: outcome(last), ..answers };
            }
            match last {
                Ok(last) => match next_number(last) {
                    Some(number) => {
                        let stored = set_number(call, LAST_NUMBER, number);
                        proof {
                            answers = EntryAnswers { stored: outcome(stored), ..answers };
                        }
                        match stored {
                            Ok(()) => {
                                let put = put_entry(call, table, number, entry);
                                proof {
                                    answers = EntryAnswers { put: outcome(put), ..answers };
                                }
                                match put {
                                    Ok(()) => Ok(number),
                                    Err(message) => Err(message),
                                }
                            },
                            Err(message) => Err(message),
                        }
                    },
                    None => Err(NO_NUMBER_LEFT.to_string()),
                },
                Err(message) => Err(message),
            }
        },
        Err(message) => Err(message),
    };
    proof {
        let after = callback_history(*call);
        assert(after =~= before + entry_attempt(table@, callback, answers).ops);
        assert(entry_added(before, entry, callback, table@, answers, after, res));
    }
    res
}

/// An alias is made of a pattern and added with its callback.
pub open spec fn alias_attempt<'lua>(
    pattern: Seq<char>,
    callback: Function<'lua>,
    answers: EntryAnswers<'lua>,
) -> Attempt<'lua, u32> {
    match regex_error(pattern) {
        Some(message) => failed(message),
        None => asked(
            ContextOp::NewAlias {
                alias: AliasView { pattern, enabled: true },
                outcome: answers.entry,
            },
            entry_attempt(ALIAS_TABLE@, callback, answers),
        ),
    }
}

/// A script has asked for an alias.
pub open spec fn alias_added<'lua>(
    before: Seq<ContextOp<'lua>>,
    pattern: Seq<char>,
    callback: Function<'lua>,
    answers: EntryAnswers<'lua>,
    after: Seq<ContextOp<'lua>>,
    res: Result<u32, String>,
) -> bool {
    went(before, alias_attempt(pattern, callback, answers), after, res)
}

/// Adds an alias for a pattern, and gives its number.
pub fn add_alias<'lua>(
    call: &mut Callback<'lua>,
    pattern: String,
    callback: Function<'lua>,
) -> (res: Result<u32, String>)
    ensures
        exists|answers: EntryAnswers<'lua>| #[trigger]
            alias_added(
                callback_history(*old(call)),
                pattern@,
                callback,
                answers,
                callback_history(*final(call)),
                res,
            ),
{
    let ghost before = callback_history(*call);
    let ghost mut answers: EntryAnswers<'lua> = arbitrary();
    let res = match Alias::create(pattern.as_str()) {
        Ok(alias) => {
            let made = new_alias(call, alias);
            proof {
                answers = EntryAnswers { entry: outcome(made), ..answers };
            }
            match made {
                Ok(entry) => {
                    let ghost between = callback_history(*call);
                    let res = add_entry(call, entry, callback, ALIAS_TABLE);
                    proof {
                        answers = choose|answers: EntryAnswers<'lua>| #[trigger]
                            entry_added(
                                between,
                                entry,
                                callback,
                                ALIAS_TABLE@,
                                answers,
                                callback_history(*call),
                                res,
                            );
                    }
                    res
                },
                Err(message) => Err(message),
            }
        },
        Err(message) => Err(message),
    };
    proof {
        let after = callback_history(*call);
        assert(after =~= before + alias_attempt(pattern@, callback, answers).ops);
        assert(alias_added(
            before,
            pattern@,
            callback,
            answers,
            after,
            res,
        ));
    }
    res
}

/// A trigger is made of a pattern and added with its callback.
pub open spec fn trigger_attempt<'lua>(
    pattern: Seq<char>,
    gag: bool,
    raw: bool,
    prompt: bool,
    callback: Function<'lua>,
    answers: EntryAnswers<'lua>,
) -> Attempt<'lua, u32> {
    match regex_error(pattern) {
        Some(message) => failed(message),
        None => asked(
            ContextOp::NewTrigger {
                trigger: TriggerView { pattern, gag, raw, enabled: true },
                outcome: answers.entry,
            },
            entry_attempt(spec_trigger_table(prompt), callback, answers),
        ),
    }
}

/// A script has asked for a trigger.
pub open spec fn trigger_added<'lua>(
    before: Seq<ContextOp<'lua>>,
    pattern: Seq<char>,
    gag: bool,
    raw: bool,
    prompt: bool,
    callback: Function<'lua>,
    answers: EntryAnswers<'lua>,
    after: Seq<ContextOp<'lua>>,
    res: Result<u32, String>,
) -> bool {
    went(before, trigger_attempt(pattern, gag, raw, prompt, callback, answers), after, res)
}

/// Adds a trigger for a pattern, and gives its number.
pub fn add_trigger<'lua>(
    call: &mut Callback<'lua>,
    pattern: String,
    gag: bool,
    raw: bool,
    prompt: bool,
    callback: Function<'lua>,
) -> (res: Result<u32, String>)
    ensures
        exists|answers: EntryAnswers<'lua>| #[trigger]
            trigger_added(
                callback_history(*old(call)),
                pattern@,
                gag,
                raw,
                prompt,
                callback,
                answers,
                callback_history(*final(call)),
                res,
            ),
{
    let ghost before = callback_history(*call);
    let ghost mut answers: EntryAnswers<'lua> = arbitrary();
    let res = match Trigger::create(pattern.as_str(), gag, raw) {
        Ok(trigger) => {
            let made = new_trigger(call, trigger);
            proof {
                answers = EntryAnswers { entry: outcome(made), ..answers };
            }
            match made {
                Ok(entry) => {
                    let ghost between = callback_history(*call);
                    let res = add_entry(call, entry, callback, trigger_table(prompt));
                    proof {
                        answers = choose|answers: EntryAnswers<'lua>| #[trigger]
                            entry_added(
                                between,
                                entry,
                                callback,
                                spec_trigger_table(prompt),
                                answers,
                                callback_history(*call),
                                res,
                            );
                    }
                    res
                },
                Err(message) => Err(message),
            }
        },
        Err(message) => Err(message),
    };
    proof {
        let after = callback_history(*call);
        let attempt = trigger_attempt(pattern@, gag, raw, prompt, callback, answers);
        assert(after =~= before + attempt.ops);
        assert(trigger_added(
            before,
            pattern@,
            gag,
            raw,
            prompt,
            callback,
            answers,
            after,
            res,
        ));
    }
    res
}

/// The trigger hides the lines that match.
pub const GAG_OPTION: &'static str = "gag";

/// The trigger is for the line with its escape sequences.
pub const RAW_OPTION: &'static str = "raw";

/// The trigger is for prompts.
pub const PROMPT_OPTION: &'static str = "prompt";

/// What the interpreter answers when it is asked what a script wants of a trigger.
pub ghost struct OptionAnswers {
    pub gag: Result<bool, Seq<char>>,
    pub raw: Result<bool, Seq<char>>,
    pub prompt: Result<bool, Seq<char>>,
}

/// A trigger is added as a table of options wants it.
pub open spec fn wanted_trigger_attempt<'lua>(
    pattern: Seq<char>,
    options: Table<'lua>,
    wanted: OptionAnswers,
    callback: Function<'lua>,
    answers: EntryAnswers<'lua>,
) -> Attempt<'lua, u32> {
    asked(
        ContextOp::GetOption { table: options, name: GAG_OPTION@, outcome: wanted.gag },
        asked(
            ContextOp::GetOption { table: options, name: RAW_OPTION@, outcome: wanted.raw },
            asked(
                ContextOp::GetOption {
                    table: options,
                    name: PROMPT_OPTION@,
                    outcome: wanted.prompt,
                },
                trigger_attempt(
                    pattern,
                    wanted.gag->Ok_0,
                    wanted.raw->Ok_0,
                    wanted.prompt->Ok_0,
                    callback,
                    answers,
                ),
            ),
        ),
    )
}

/// A script has asked for a trigger with some options.
pub open spec fn wanted_trigger_added<'lua>(
    before: Seq<ContextOp<'lua>>,
    pattern: Seq<char>,
    options: Table<'lua>,
    wanted: OptionAnswers,
    callback: Function<'lua>,
    answers: EntryAnswers<'lua>,
    after: Seq<ContextOp<'lua>>,
    res: Result<u32, String>,
) -> bool {
    went(
        before,
        wanted_trigger_attempt(pattern, options, wanted, callback, answers),
        after,
        res,
    )
}

/// Adds a trigger for a pattern as a table of options wants it, and gives its number.
pub fn add_trigger_with_options<'lua>(
    call: &mut Callback<'lua>,
    pattern: String,
    options: Table<'lua>,
    callback: Function<'lua>,
) -> (res: Result<u32, String>)
    ensures
        exists|wanted: OptionAnswers, answers: EntryAnswers<'lua>| #[trigger]
            wanted_trigger_added(
                callback_history(*old(call)),
                pattern@,
                options,
                wanted,
                callback,
                answers,
                callback_history(*final(call)),
                res,
            ),
{
    let ghost before = callback_history(*call);
    let ghost mut answers: EntryAnswers<'lua> = arbitrary();
    let gag = get_option(call, &options, GAG_OPTION);
    let ghost mut wanted = OptionAnswers { gag: outcome(gag), raw: Ok(false), prompt: Ok(false) };
    let res = match gag {
        Ok(gag) => {
            let raw = get_option(call, &options, RAW_OPTION);
            proof {
                wanted = OptionAnswers { raw: outcome(raw), ..wanted };
            }
            match raw {
                Ok(raw) => {
                    let prompt = get_option(call, &options, PROMPT_OPTION);
                    proof {
                        wanted = OptionAnswers { prompt: outcome(prompt), ..wanted };
                    }
                    match prompt {
                        Ok(prompt) => {
                            let ghost between = callback_history(*call);
                            let ghost text = pattern@;
                            let res = add_trigger(call, pattern, gag, raw, prompt, callback);
                            proof {
                                answers = choose|answers: EntryAnswers<'lua>| #[trigger]
                                    trigger_added(
                                        between,
                                        text,
                                        gag,
                                        raw,
                                        prompt,
                                        callback,
                                        answers,
                                        callback_history(*call),
                                        res,
                                    );
                            }
                            res
                        },
                        Err(message) => Err(message),
                    }
                },
                Err(message) => Err(message),
            }
        },
        Err(message) => Err(message),
    };
    proof {
        let after = callback_history(*call);
        let attempt = wanted_trigger_attempt(pattern@, options, wanted, callback, answers);
        assert(after =~= before + attempt.ops);
        assert(wanted_trigger_added(
            before,
            pattern@,
            options,
            wanted,
            callback,
            answers,
            after,
            res,
        ));
    }
    res
}

/// One request has been made, and the call comes to what it came to.
pub open spec fn requested<'lua>(
    before: Seq<ContextOp<'lua>>,
    op: ContextOp<'lua>,
    after: Seq<ContextOp<'lua>>,
    res: Result<(), String>,
) -> bool {
    went(before, asked(op, done(())), after, res)
}

/// What takes an alias away.
pub open spec fn alias_removal<'lua>(
    number: u32,
    answer: Result<(), Seq<char>>,
) -> ContextOp<'lua> {
    ContextOp::ClearEntry { table: ALIAS_TABLE@, number, outcome: answer }
}

/// Takes the alias with a number away.
pub fn remove_alias<'lua>(
    call: &mut Callback<'lua>,
    number: u32,
) -> (res: Result<(), String>)
    ensures
        exists|answer: Result<(), Seq<char>>|
            requested(
                callback_history(*old(call)),
                #[trigger] alias_removal(number, answer),
                callback_history(*final(call)),
                res,
            ),
{
    let ghost before = callback_history(*call);
    let answer = clear_entry(call, ALIAS_TABLE, number);
    let ghost op = alias_removal(number, outcome(answer));
    let res = match answer {
        Ok(()) => Ok(()),
        Err(message) => Err(message),
    };
    assert(callback_history(*call) =~= before + asked(op, done(())).ops);
    assert(requested(before, op, callback_history(*call), res));
    res
}

/// What binds a function to a key.
pub open spec fn binding<'lua>(
    key: Seq<char>,
    function: Function<'lua>,
    answer: Result<(), Seq<char>>,
) -> ContextOp<'lua> {
    ContextOp::PutFunction { table: COMMAND_BINDING_TABLE@, name: key, function, outcome: answer }
}

/// Has a function called when a key is pressed.
pub fn bind<'lua>(
    call: &mut Callback<'lua>,
    key: String,
    callback: Function<'lua>,
) -> (res: Result<(), String>)
    ensures
        exists|answer: Result<(), Seq<char>>|
            requested(
                callback_history(*old(call)),
                #[trigger] binding(key@, callback, answer),
                callback_history(*final(call)),
                res,
            ),
{
    let ghost before = callback_history(*call);
    let answer = put_function(call, COMMAND_BINDING_TABLE, key, callback);
    let ghost op = binding(key@, callback, outcome(answer));
    let res = match answer {
        Ok(()) => Ok(()),
        Err(message) => Err(message),
    };
    assert(callback_history(*call) =~= before + asked(op, done(())).ops);
    assert(requested(before, op, callback_history(*call), res));
    res
}

/// What makes a function the listener for a kind of GMCP message.
pub open spec fn gmcp_listener<'lua>(
    kind: Seq<char>,
    function: Function<'lua>,
    answer: Result<(), Seq<char>>,
) -> ContextOp<'lua> {
    ContextOp::PutFunction { table: GMCP_LISTENER_TABLE@, name: kind, function, outcome: answer }
}

/// Has a function called for GMCP messages of a kind.
pub fn receive_gmcp<'lua>(
    call: &mut Callback<'lua>,
    kind: String,
    callback: Function<'lua>,
) -> (res: Result<(), String>)
    ensures
        exists|answer: Result<(), Seq<char>>|
            requested(
                callback_history(*old(call)),
                #[trigger] gmcp_listener(kind@, callback, answer),
                callback_history(*final(call)),
                res,
            ),
{
    let ghost before = callback_history(*call);
    let answer = put_function(call, GMCP_LISTENER_TABLE, kind, callback);
    let ghost op = gmcp_listener(kind@, callback, outcome(answer));
    let res = match answer {
        Ok(()) => Ok(()),
        Err(message) => Err(message),
    };
    assert(callback_history(*call) =~= before + asked(op, done(())).ops);
    assert(requested(before, op, callback_history(*call), res));
    res
}

/// What hides the line that a trigger is looking at.
pub open spec fn hiding<'lua>(answer: Result<(), Seq<char>>) -> ContextOp<'lua> {
    ContextOp::SetFlag { name: GAG_NEXT_TRIGGER_LINE@, value: true, outcome: answer }
}

/// Hides the line that a trigger is looking at.
pub fn gag<'lua>(
    call: &mut Callback<'lua>,
) -> (res: Result<(), String>)
    ensures
        exists|answer: Result<(), Seq<char>>|
            requested(
                callback_history(*old(call)),
                #[trigger] hiding(answer),
                callback_history(*final(call)),
                res,
            ),
{
    let ghost before = callback_history(*call);
    let answer = set_flag(call, GAG_NEXT_TRIGGER_LINE, true);
    let ghost op = hiding(outcome(answer));
    let res = match answer {
        Ok(()) => Ok(()),
        Err(message) => Err(message),
    };
    assert(callback_history(*call) =~= before + asked(op, done(())).ops);
    assert(requested(before, op, callback_history(*call), res));
    res
}

/// What makes a function the one that is called when something happens.
pub open spec fn hook<'lua>(
    name: Seq<char>,
    function: Function<'lua>,
    answer: Result<(), Seq<char>>,
) -> ContextOp<'lua> {
    ContextOp::SetFunction { name, function, outcome: answer }
}

fn keep_hook<'lua>(
    call: &mut Callback<'lua>,
    name: &str,
    callback: Function<'lua>,
) -> (res: Result<(), String>)
    ensures
        exists|answer: Result<(), Seq<char>>|
            requested(
                callback_history(*old(call)),
                #[trigger] hook(name@, callback, answer),
                callback_history(*final(call)),
                res,
            ),
{
    let ghost before = callback_history(*call);
    let answer = set_function(call, name, callback);
    let ghost op = hook(name@, callback, outcome(answer));
    let res = match answer {
        Ok(()) => Ok(()),
        Err(message) => Err(message),
    };
    assert(callback_history(*call) =~= before + asked(op, done(())).ops);
    assert(requested(before, op, callback_history(*call), res));
    res
}

/// Has a function called once connected.
pub fn on_connect<'lua>(call: &mut Callback<'lua>, callback: Function<'lua>) -> (res: Result<
    (),
    String,
>)
    ensures
        exists|answer: Result<(), Seq<char>>|
            requested(
                callback_history(*old(call)),
                #[trigger] hook(ON_CONNCTION_CALLBACK@, callback, answer),
                callback_history(*final(call)),
                res,
            ),
{
    keep_hook(call, ON_CONNCTION_CALLBACK, callback)
}

/// Has a function called once disconnected.
pub fn on_disconnect<'lua>(call: &mut Callback<'lua>, callback: Function<'lua>) -> (res: Result<
    (),
    String,
>)
    ensures
        exists|answer: Result<(), Seq<char>>|
            requested(
                callback_history(*old(call)),
                #[trigger] hook(ON_DISCONNECT_CALLBACK@, callback, answer),
                callback_history(*final(call)),
                res,
            ),
{
    keep_hook(call, ON_DISCONNECT_CALLBACK, callback)
}

/// Has a function called once the server talks GMCP.
pub fn on_gmcp_ready<'lua>(call: &mut Callback<'lua>, callback: Function<'lua>) -> (res: Result<
    (),
    String,
>)
    ensures
        exists|answer: Result<(), Seq<char>>|
            requested(
                callback_history(*old(call)),
                #[trigger] hook(ON_GMCP_READY_CALLBACK@, callback, answer),
                callback_history(*final(call)),
                res,
            ),
{
    keep_hook(call, ON_GMCP_READY_CALLBACK, callback)
}

/// A trigger is taken away, whichever table it is in.
pub open spec fn removal_attempt<'lua>(
    number: u32,
    first: Result<(), Seq<char>>,
    second: Result<(), Seq<char>>,
) -> Attempt<'lua, ()> {
    asked(
        ContextOp::ClearEntry { table: TRIGGER_TABLE@, number, outcome: first },
        asked(
            ContextOp::ClearEntry { table: PROMPT_TRIGGER_TABLE@, number, outcome: second },
            done(()),
        ),
    )
}

/// A script has asked for a trigger to be taken away.
pub open spec fn trigger_removed<'lua>(
    before: Seq<ContextOp<'lua>>,
    number: u32,
    first: Result<(), Seq<char>>,
    second: Result<(), Seq<char>>,
    after: Seq<ContextOp<'lua>>,
    res: Result<(), String>,
) -> bool {
    went(before, removal_attempt(number, first, second), after, res)
}

/// Takes the trigger with a number away, whichever table it is in.
pub fn remove_trigger<'lua>(call: &mut Callback<'lua>, number: u32) -> (res: Result<(), String>)
    ensures
        exists|first: Result<(), Seq<char>>, second: Result<(), Seq<char>>| #[trigger]
            trigger_removed(
                callback_history(*old(call)),
                number,
                first,
                second,
                callback_history(*final(call)),
                res,
            ),
{
    let ghost before = callback_history(*call);
    let cleared = clear_entry(call, TRIGGER_TABLE, number);
    let ghost first = outcome(cleared);
    if let Err(message) = cleared {
        let res = Err(message);
        assert(callback_history(*call) =~= before + removal_attempt(number, first, Ok(())).ops);
        assert(trigger_removed(before, number, first, Ok(()), callback_history(*call), res));
        return res;
    }
    let cleared = clear_entry(call, PROMPT_TRIGGER_TABLE, number);
    let ghost second = outcome(cleared);
    let res = match cleared {
        Ok(()) => Ok(()),
        Err(message) => Err(message),
    };
    assert(callback_history(*call) =~= before + removal_attempt(number, first, second).ops);
    assert(trigger_removed(before, number, first, second, callback_history(*call), res));
    res
}

/// What the interpreter answers when an alias or a trigger is turned on or off: what it
/// finds in the first table and in the second, and how the turning ends.
pub ghost struct SwitchAnswers<'lua> {
    pub found: Result<Option<AnyUserData<'lua>>, Seq<char>>,
    pub other: Result<Option<AnyUserData<'lua>>, Seq<char>>,
    pub switched: Result<(), Seq<char>>,
}

/// The alias with a number is turned on or off.
pub open spec fn alias_switch_attempt<'lua>(
    number: u32,
    enabled: bool,
    answers: SwitchAnswers<'lua>,
) -> Attempt<'lua, ()> {
    asked(
        ContextOp::FindEntry { table: ALIAS_TABLE@, number, outcome: answers.found },
        match answers.found->Ok_0 {
            Some(entry) => asked(
                ContextOp::SwitchAlias { entry, enabled, outcome: answers.switched },
                done(()),
            ),
            None => failed(NOTHING_THERE@),
        },
    )
}

/// A script has asked for an alias to be turned on or off.
pub open spec fn alias_switched<'lua>(
    before: Seq<ContextOp<'lua>>,
    number: u32,
    enabled: bool,
    answers: SwitchAnswers<'lua>,
    after: Seq<ContextOp<'lua>>,
    res: Result<(), String>,
) -> bool {
    went(before, alias_switch_attempt(number, enabled, answers), after, res)
}

/// Turns the alias with a number on or off.
pub fn enable_alias<'lua>(call: &mut Callback<'lua>, number: u32, enabled: bool) -> (res: Result<
    (),
    String,
>)
    ensures
        exists|answers: SwitchAnswers<'lua>| #[trigger]
            alias_switched(
                callback_history(*old(call)),
                number,
                enabled,
                answers,
                callback_history(*final(call)),
                res,
            ),
{
    let ghost before = callback_history(*call);
    let found = find_entry(call, ALIAS_TABLE, number);
    let ghost mut answers = SwitchAnswers {
        found: outcome(found),
        other: Ok(None),
        switched: Ok(()),
    };
    let res = match found {
        Ok(Some(entry)) => {
            let switched = switch_alias(call, &entry, enabled);
            proof {
                answers = SwitchAnswers { switched: outcome(switched), ..answers };
            }
            match switched {
                Ok(()) => Ok(()),
                Err(message) => Err(message),
            }
        },
        Ok(None) => Err(NOTHING_THERE.to_string()),
        Err(message) => Err(message),
    };
    proof {
        let attempt = alias_switch_attempt(number, enabled, answers);
        assert(callback_history(*call) =~= before + attempt.ops);
        assert(alias_switched(before, number, enabled, answers, callback_history(*call), res));
    }
    res
}

/// The trigger with a number is turned on or off. It is looked for among the triggers
/// for prompts only if it is not among the others.
pub open spec fn trigger_switch_attempt<'lua>(
    number: u32,
    enabled: bool,
    answers: SwitchAnswers<'lua>,
) -> Attempt<'lua, ()> {
    asked(
        ContextOp::FindEntry { table: TRIGGER_TABLE@, number, outcome: answers.found },
        match answers.found->Ok_0 {
            Some(entry) => asked(
                ContextOp::SwitchTrigger { entry, enabled, outcome: answers.switched },
                done(()),
            ),
            None => asked(
                ContextOp::FindEntry {
                    table: PROMPT_TRIGGER_TABLE@,
                    number,
                    outcome: answers.other,
                },
                match answers.other->Ok_0 {
                    Some(entry) => asked(
                        ContextOp::SwitchTrigger { entry, enabled, outcome: answers.switched },
                        done(()),
                    ),
                    None => failed(NOTHING_THERE@),
                },
            ),
        },
    )
}

/// A script has asked for a trigger to be turned on or off.
pub open spec fn trigger_switched<'lua>(
    before: Seq<ContextOp<'lua>>,
    number: u32,
    enabled: bool,
    answers: SwitchAnswers<'lua>,
    after: Seq<ContextOp<'lua>>,
    res: Result<(), String>,
) -> bool {
    went(before, trigger_switch_attempt(number, enabled, answers), after, res)
}

/// Turns the trigger with a number on or off, whichever table it is in.
pub fn enable_trigger<'lua>(call: &mut Callback<'lua>, number: u32, enabled: bool) -> (res: Result<
    (),
    String,
>)
    ensures
        exists|answers: SwitchAnswers<'lua>| #[trigger]
            trigger_switched(
                callback_history(*old(call)),
                number,
                enabled,
                answers,
                callback_history(*final(call)),
                res,
            ),
{
    let ghost before = callback_history(*call);
    let found = find_entry(call, TRIGGER_TABLE, number);
    let ghost mut answers = SwitchAnswers {
        found: outcome(found),
        other: Ok(None),
        switched: Ok(()),
    };
    let found = match found {
        Ok(None) => {
            let other = find_entry(call, PROMPT_TRIGGER_TABLE, number);
            proof {
                answers = SwitchAnswers { other: outcome(other), ..answers };
            }
            other
        },
        first => first,
    };
    let res = match found {
        Ok(Some(entry)) => {
            let switched = switch_trigger(call, &entry, enabled);
            proof {
                answers = SwitchAnswers { switched: outcome(switched), ..answers };
            }
            match switched {
                Ok(()) => Ok(()),
                Err(message) => Err(message),
            }
        },
        Ok(None) => Err(NOTHING_THERE.to_string()),
        Err(message) => Err(message),
    };
    proof {
        let attempt = trigger_switch_attempt(number, enabled, answers);
        assert(callback_history(*call) =~= before + attempt.ops);
        assert(trigger_switched(before, number, enabled, answers, callback_history(*call), res));
    }
    res
}

/// Registers with `UserDataMethods::add_function` the functions about aliases, each
/// under the name that scripts know it by. Nothing is said of what Lua does with them.
#[verifier::external_body]
pub(crate) fn add_alias_functions<'lua, M: UserDataMethods<'lua, BlightMud>>(methods: &mut M) {
    methods.add_function("add_alias", |ctx, args: (Value, String, Function)| {
        add_alias(&mut Callback { ctx }, args.1, args.2).map_err(Error::RuntimeError)
    });
    methods.add_function("remove_alias", |ctx, args: (Value, u32)| {
        remove_alias(&mut Callback { ctx }, args.1).map_err(Error::RuntimeError)
    });
    methods.add_function("enable_alias", |ctx, args: (Value, u32, bool)| {
        enable_alias(&mut Callback { ctx }, args.1, args.2).map_err(Error::RuntimeError)
    });
}

/// Registers with `UserDataMethods::add_function` the functions about triggers, each
/// under the name that scripts know it by. Nothing is said of what Lua does with them.
#[verifier::external_body]
pub(crate) fn add_trigger_functions<'lua, M: UserDataMethods<'lua, BlightMud>>(methods: &mut M) {
    methods.add_function("add_trigger", |ctx, args: (Value, String, Table, Function)| {
        add_trigger_with_options(&mut Callback { ctx }, args.1, args.2, args.3).map_err(
            Error::RuntimeError,
        )
    });
    methods.add_function("remove_trigger", |ctx, args: (Value, u32)| {
        remove_trigger(&mut Callback { ctx }, args.1).map_err(Error::RuntimeError)
    });
    methods.add_function("enable_trigger", |ctx, args: (Value, u32, bool)| {
        enable_trigger(&mut Callback { ctx }, args.1, args.2).map_err(Error::RuntimeError)
    });
}

/// Registers with `UserDataMethods::add_function` the functions about keys, GMCP and
/// the line at hand, each under the name that scripts know it by. Nothing is said of
/// what Lua does with them.
#[verifier::external_body]
pub(crate) fn add_table_functions<'lua, M: UserDataMethods<'lua, BlightMud>>(methods: &mut M) {
    methods.add_function("bind", |ctx, args: (Value, String, Function)| {
        bind(&mut Callback { ctx }, args.1, args.2).map_err(Error::RuntimeError)
    });
    methods.add_function("receive_gmcp", |ctx, args: (Value, String, Function)| {
        receive_gmcp(&mut Callback { ctx }, args.1, args.2).map_err(Error::RuntimeError)
    });
    methods.add_function("gag", |ctx, _: Value| {
        gag(&mut Callback { ctx }).map_err(Error::RuntimeError)
    });
}

/// Registers with `UserDataMethods::add_function` the functions about the connection,
/// each under the name that scripts know it by. Nothing is said of what Lua does with
/// them.
#[verifier::external_body]
pub(crate) fn add_connection_functions<'lua, M: UserDataMethods<'lua, BlightMud>>(methods: &mut M) {
    methods.add_function("on_connect", |ctx, args: (Value, Function)| {
        on_connect(&mut Callback { ctx }, args.1).map_err(Error::RuntimeError)
    });
    methods.add_function("on_disconnect", |ctx, args: (Value, Function)| {
        on_disconnect(&mut Callback { ctx }, args.1).map_err(Error::RuntimeError)
    });
    methods.add_function("on_gmcp_ready", |ctx, args: (Value, Function)| {
        on_gmcp_ready(&mut Callback { ctx }, args.1).map_err(Error::RuntimeError)
    });
}

} // verus!
