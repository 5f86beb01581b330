//! The Lua interpreter, and a record of what is done with it.
//!
//! A script can do anything, so little can be said of what comes back from an
//! interpreter. What can be said is what was asked of it, in which order, and
//! what it answered. Every function here adds one operation to that record.
//!
//! A function that runs a script comes back only if the script does: a script may run
//! for ever, end the process, or return more values than the interpreter has room for,
//! on which it panics.

use super::blight::{BlightMud, BlightView};
use super::constants::BLIGHT;
use super::matcher::{Alias, AliasView, Trigger, TriggerView};
use crate::text::texts;
use rlua::{AnyUserData, Error, Function, Lua, RegistryKey, Table, Value};
use vstd::prelude::*;

verus! {

/// An interpreter: the outside type `rlua::Lua`.
#[verifier::external_type_specification]
#[verifier::external_body]
pub struct ExLua(Lua);

/// A value that an interpreter keeps: the outside type `rlua::RegistryKey`.
#[verifier::external_type_specification]
#[verifier::external_body]
pub struct ExRegistryKey(RegistryKey);

/// What a Lua function is called with.
pub ghost enum LuaArgs {
    Nothing,
    Text(Seq<char>),
    Address(Seq<char>, u16),
}

/// An operation on an interpreter, with its outcome: what it gave, or the message
/// of the error that it ended in.
#[allow(inconsistent_fields)]
pub ghost enum LuaOp {
    /// Read the `blight` object.
    GetBlight { outcome: Result<BlightView, Seq<char>> },
    /// Put a `blight` object in the place of the one that is there.
    SetBlight { blight: BlightView, outcome: Result<(), Seq<char>> },
    /// Make a global an empty table.
    NewTable { name: Seq<char>, outcome: Result<(), Seq<char>> },
    /// Read a global as a truth value.
    GetFlag { name: Seq<char>, outcome: Result<bool, Seq<char>> },
    /// Make a global a truth value.
    SetFlag { name: Seq<char>, value: bool, outcome: Result<(), Seq<char>> },
    /// Run a script and make a global what it returns.
    LoadModule { name: Seq<char>, source: Seq<char>, outcome: Result<(), Seq<char>> },
    /// Run a script.
    Exec { source: Seq<char>, outcome: Result<(), Seq<char>> },
    /// Run a script that is known by a name.
    ExecNamed { name: Seq<char>, source: Seq<char>, outcome: Result<(), Seq<char>> },
    /// Take hold of the table that a global holds, and list its keys.
    Keys { name: Seq<char>, outcome: Result<(RegistryKey, Seq<RegistryKey>), Seq<char>> },
    /// Read the alias under a key of a table, if there is one.
    ReadAlias {
        table: RegistryKey,
        key: RegistryKey,
        outcome: Result<Option<AliasView>, Seq<char>>,
    },
    /// Read the trigger under a key of a table, if there is one.
    ReadTrigger {
        table: RegistryKey,
        key: RegistryKey,
        outcome: Result<Option<TriggerView>, Seq<char>>,
    },
    /// Call the function kept with the alias under a key of a table. The inner outcome
    /// is that of the call.
    CallAlias {
        table: RegistryKey,
        key: RegistryKey,
        captures: Seq<Seq<char>>,
        outcome: Result<Result<(), Seq<char>>, Seq<char>>,
    },
    /// Call the function kept with the trigger under a key of a table. The inner
    /// outcome is that of the call.
    CallTrigger {
        table: RegistryKey,
        key: RegistryKey,
        captures: Seq<Seq<char>>,
        outcome: Result<Result<(), Seq<char>>, Seq<char>>,
    },
    /// Look for a function in a global.
    FindGlobal { name: Seq<char>, found: Option<RegistryKey> },
    /// Look for a function under a name in a table.
    FindNamed {
        table: Seq<char>,
        name: Seq<char>,
        outcome: Result<Option<RegistryKey>, Seq<char>>,
    },
    /// Read the function under a number in a table.
    FindNumbered { table: Seq<char>, id: u32, outcome: Result<RegistryKey, Seq<char>> },
    /// Empty the place under a number in a table.
    ClearNumbered { table: Seq<char>, id: u32, outcome: Result<(), Seq<char>> },
    /// Call a function.
    Call { function: RegistryKey, args: LuaArgs, outcome: Result<(), Seq<char>> },
}

/// The operations made on an interpreter through this module, oldest first.
pub uninterp spec fn lua_history(lua: Lua) -> Seq<LuaOp>;

/// An outcome with its message as text.
pub open spec fn outcome<T>(res: Result<T, String>) -> Result<T, Seq<char>> {
    match res {
        Ok(value) => Ok(value),
        Err(message) => Err(message@),
    }
}

/// An outcome with its message as text, and what it says of the alias.
pub open spec fn alias_outcome(res: Result<Option<Alias>, String>) -> Result<
    Option<AliasView>,
    Seq<char>,
> {
    match res {
        Ok(Some(alias)) => Ok(Some(alias@)),
        Ok(None) => Ok(None),
        Err(message) => Err(message@),
    }
}

/// An outcome with its message as text, and what it says of the trigger.
pub open spec fn trigger_outcome(res: Result<Option<Trigger>, String>) -> Result<
    Option<TriggerView>,
    Seq<char>,
> {
    match res {
        Ok(Some(trigger)) => Ok(Some(trigger@)),
        Ok(None) => Ok(None),
        Err(message) => Err(message@),
    }
}

/// An outcome with both its messages as text.
pub open spec fn entry_outcome(res: Result<Result<(), String>, String>) -> Result<
    Result<(), Seq<char>>,
    Seq<char>,
> {
    match res {
        Ok(called) => Ok(outcome(called)),
        Err(message) => Err(message@),
    }
}

/// An outcome tells what was given, or the message of the error, and nothing else.
pub proof fn law_outcomes_tell_all(
    alias: Result<Option<Alias>, String>,
    trigger: Result<Option<Trigger>, String>,
    called: Result<Result<(), String>, String>,
    done: Result<(), String>,
    found: Result<Option<RegistryKey>, String>,
)
    ensures
        match alias {
            Ok(Some(alias_read)) => alias_outcome(alias) == Ok::<Option<AliasView>, Seq<char>>(
                Some(alias_read@),
            ),
            Ok(None) => alias_outcome(alias) == Ok::<Option<AliasView>, Seq<char>>(None),
            Err(message) => alias_outcome(alias) == Err::<Option<AliasView>, Seq<char>>(message@),
        },
        match trigger {
            Ok(Some(trigger_read)) => trigger_outcome(trigger) == Ok::<
                Option<TriggerView>,
                Seq<char>,
            >(Some(trigger_read@)),
            Ok(None) => trigger_outcome(trigger) == Ok::<Option<TriggerView>, Seq<char>>(None),
            Err(message) => trigger_outcome(trigger) == Err::<Option<TriggerView>, Seq<char>>(
                message@,
            ),
        },
        match called {
            Ok(Ok(())) => entry_outcome(called) matches Ok(Ok(())),
            Ok(Err(message)) => entry_outcome(called) == Ok::<
                Result<(), Seq<char>>,
                Seq<char>,
            >(Err(message@)),
            Err(message) => entry_outcome(called) == Err::<Result<(), Seq<char>>, Seq<char>>(
                message@,
            ),
        },
        match done {
            Ok(()) => outcome(done) is Ok,
            Err(message) => outcome(done) == Err::<(), Seq<char>>(message@),
        },
        match found {
            Ok(key) => outcome(found) == Ok::<Option<RegistryKey>, Seq<char>>(key),
            Err(message) => outcome(found) == Err::<Option<RegistryKey>, Seq<char>>(message@),
        },
{
}

/// Wraps `Lua::new`: an interpreter with the standard libraries but `debug`, on
/// which no operation has been made.
#[verifier::external_body]
pub(crate) fn new_interpreter() -> (lua: Lua)
    ensures
        lua_history(lua) == Seq::<LuaOp>::empty(),
{
    Lua::new()
}

/// Wraps `Table::get` on the globals, for a copy of the `blight` object, made by its
/// `clone`: nothing has been offered to the channel through it.
#[verifier::external_body]
pub(crate) fn get_blight(lua: &mut Lua) -> (res: Result<BlightMud, String>)
    ensures
        lua_history(*final(lua)) == lua_history(*old(lua)).push(
            LuaOp::GetBlight {
                outcome: match res {
                    Ok(blight) => Ok(blight@),
                    Err(message) => Err(message@),
                },
            },
        ),
        res matches Ok(blight) ==> blight@ == blight@.copied(),
{
    lua.context(|ctx| ctx.globals().get(BLIGHT)).map_err(|error| error.to_string())
}

/// Wraps `Table::set` on the globals, for the `blight` object.
#[verifier::external_body]
pub(crate) fn set_blight(lua: &mut Lua, blight: BlightMud) -> (res: Result<(), String>)
    ensures
        lua_history(*final(lua)) == lua_history(*old(lua)).push(
            LuaOp::SetBlight { blight: blight@, outcome: outcome(res) },
        ),
{
    lua.context(|ctx| ctx.globals().set(BLIGHT, blight)).map_err(|error| error.to_string())
}

/// Wraps `Context::create_table`, and `Table::set` on the globals.
#[verifier::external_body]
pub(crate) fn new_table(lua: &mut Lua, name: &str) -> (res: Result<(), String>)
    ensures
        lua_history(*final(lua)) == lua_history(*old(lua)).push(
            LuaOp::NewTable { name: name@, outcome: outcome(res) },
        ),
{
    lua.context(|ctx| ctx.globals().set(name, ctx.create_table()?)).map_err(
        |error: Error| error.to_string(),
    )
}

/// Wraps `Table::get` on the globals, for a truth value.
#[verifier::external_body]
pub(crate) fn get_flag(lua: &mut Lua, name: &str) -> (res: Result<bool, String>)
    ensures
        lua_history(*final(lua)) == lua_history(*old(lua)).push(
            LuaOp::GetFlag { name: name@, outcome: outcome(res) },
        ),
{
    lua.context(|ctx| ctx.globals().get(name)).map_err(|error| error.to_string())
}

/// Wraps `Table::set` on the globals, for a truth value.
#[verifier::external_body]
pub(crate) fn set_flag(lua: &mut Lua, name: &str, value: bool) -> (res: Result<(), String>)
    ensures
        lua_history(*final(lua)) == lua_history(*old(lua)).push(
            LuaOp::SetFlag { name: name@, value, outcome: outcome(res) },
        ),
{
    lua.context(|ctx| ctx.globals().set(name, value)).map_err(|error| error.to_string())
}

/// Wraps `Chunk::call` for a script without arguments, and `Table::set` on the
/// globals for what it returns. It comes back only if the script does.
#[verifier::external_body]
pub(crate) fn load_module(lua: &mut Lua, name: &str, source: &str) -> (res: Result<(), String>)
    ensures
        lua_history(*final(lua)) == lua_history(*old(lua)).push(
            LuaOp::LoadModule { name: name@, source: source@, outcome: outcome(res) },
        ),
{
    lua.context(|ctx| {
        let module = ctx.load(source).call::<_, Value>(())?;
        ctx.globals().set(name, module)
    }).map_err(|error: Error| error.to_string())
}

/// Wraps `Chunk::exec`. It comes back only if the script does.
#[verifier::external_body]
pub(crate) fn exec(lua: &mut Lua, source: &str) -> (res: Result<(), String>)
    ensures
        lua_history(*final(lua)) == lua_history(*old(lua)).push(
            LuaOp::Exec { source: source@, outcome: outcome(res) },
        ),
{
    lua.context(|ctx| ctx.load(source).exec()).map_err(|error| error.to_string())
}

/// Wraps `Chunk::exec` for a chunk with a name. It comes back only if the script
/// does.
#[verifier::external_body]
pub(crate) fn exec_named(lua: &mut Lua, name: &str, source: &str) -> (res: Result<(), String>)
    ensures
        lua_history(*final(lua)) == lua_history(*old(lua)).push(
            LuaOp::ExecNamed { name: name@, source: source@, outcome: outcome(res) },
        ),
{
    lua.context(|ctx| ctx.load(source).set_name(name)?.exec()).map_err(
        |error: Error| error.to_string(),
    )
}

/// Wraps `Table::pairs` for the keys of the table that a global holds. They come with
/// the table, which may not be in the global any more when a key is used.
#[verifier::external_body]
pub(crate) fn table_keys(lua: &mut Lua, name: &str) -> (res: Result<
    (RegistryKey, Vec<RegistryKey>),
    String,
>)
    ensures
        lua_history(*final(lua)) == lua_history(*old(lua)).push(
            LuaOp::Keys {
                name: name@,
                outcome: match res {
                    Ok((table, keys)) => Ok((table, keys@)),
                    Err(message) => Err(message@),
                },
            },
        ),
{
    lua.context(|ctx| {
        ctx.expire_registry_values();
        let table: Table = ctx.globals().get(name)?;
        let held = ctx.create_registry_value(table.clone())?;
        let keys = table.pairs::<Value, Value>().map(|pair| ctx.create_registry_value(pair?.0));
        Ok((held, keys.collect::<Result<Vec<RegistryKey>, Error>>()?))
    }).map_err(|error: Error| error.to_string())
}

/// Wraps `Table::raw_get`, for a copy of the alias under a key of a table. It gives
/// nothing where the table holds nothing under the key.
#[verifier::external_body]
pub(crate) fn read_alias(lua: &mut Lua, table: &RegistryKey, key: &RegistryKey) -> (res: Result<
    Option<Alias>,
    String,
>)
    ensures
        lua_history(*final(lua)) == lua_history(*old(lua)).push(
            LuaOp::ReadAlias { table: *table, key: *key, outcome: alias_outcome(res) },
        ),
{
    lua.context(|ctx| {
        let table: Table = ctx.registry_value(table)?;
        table.raw_get(ctx.registry_value::<Value>(key)?)
    }).map_err(|error: Error| error.to_string())
}

/// Wraps `Table::raw_get`, for a copy of the trigger under a key of a table. It gives
/// nothing where the table holds nothing under the key.
#[verifier::external_body]
pub(crate) fn read_trigger(lua: &mut Lua, table: &RegistryKey, key: &RegistryKey) -> (res: Result<
    Option<Trigger>,
    String,
>)
    ensures
        lua_history(*final(lua)) == lua_history(*old(lua)).push(
            LuaOp::ReadTrigger { table: *table, key: *key, outcome: trigger_outcome(res) },
        ),
{
    lua.context(|ctx| {
        let table: Table = ctx.registry_value(table)?;
        table.raw_get(ctx.registry_value::<Value>(key)?)
    }).map_err(|error: Error| error.to_string())
}

/// Wraps `AnyUserData::get_user_value` for the function kept with the alias under a
/// key of a table, and `Function::call` for that function with a list of texts. The
/// alias stays borrowed during the call, so the function cannot change it. It comes
/// back only if the function does.
#[verifier::external_body]
pub(crate) fn call_alias(
    lua: &mut Lua,
    table: &RegistryKey,
    key: &RegistryKey,
    captures: Vec<String>,
) -> (res: Result<Result<(), String>, String>)
    ensures
        lua_history(*final(lua)) == lua_history(*old(lua)).push(
            LuaOp::CallAlias {
                table: *table,
                key: *key,
                captures: texts(captures@),
                outcome: entry_outcome(res),
            },
        ),
{
    lua.context(|ctx| {
        let table: Table = ctx.registry_value(table)?;
        let entry: AnyUserData = table.raw_get(ctx.registry_value::<Value>(key)?)?;
        let _borrowed = entry.borrow::<Alias>()?;
        let callback: Function = entry.get_user_value()?;
        Ok(callback.call::<_, ()>(captures).map_err(|error| error.to_string()))
    }).map_err(|error: Error| error.to_string())
}

/// Wraps `AnyUserData::get_user_value` for the function kept with the trigger under a
/// key of a table, and `Function::call` for that function with a list of texts. The
/// trigger stays borrowed during the call, so the function cannot change it. It comes
/// back only if the function does.
#[verifier::external_body]
pub(crate) fn call_trigger(
    lua: &mut Lua,
    table: &RegistryKey,
    key: &RegistryKey,
    captures: Vec<String>,
) -> (res: Result<Result<(), String>, String>)
    ensures
        lua_history(*final(lua)) == lua_history(*old(lua)).push(
            LuaOp::CallTrigger {
                table: *table,
                key: *key,
                captures: texts(captures@),
                outcome: entry_outcome(res),
            },
        ),
{
    lua.context(|ctx| {
        let table: Table = ctx.registry_value(table)?;
        let entry: AnyUserData = table.raw_get(ctx.registry_value::<Value>(key)?)?;
        let _borrowed = entry.borrow::<Trigger>()?;
        let callback: Function = entry.get_user_value()?;
        Ok(callback.call::<_, ()>(captures).map_err(|error| error.to_string()))
    }).map_err(|error: Error| error.to_string())
}

/// Wraps `Table::get` on the globals, for a function.
#[verifier::external_body]
pub(crate) fn find_global(lua: &mut Lua, name: &str) -> (found: Option<RegistryKey>)
    ensures
        lua_history(*final(lua)) == lua_history(*old(lua)).push(
            LuaOp::FindGlobal { name: name@, found },
        ),
{
    lua.context(|ctx| {
        ctx.expire_registry_values();
        let function: Function = ctx.globals().get(name)?;
        ctx.create_registry_value(function)
    }).ok()
}

/// Wraps `Table::get` on a table that a global holds, for the function under a
/// name. It fails only where there is no such table.
#[verifier::external_body]
pub(crate) fn find_named(lua: &mut Lua, table: &str, name: &str) -> (res: Result<
    Option<RegistryKey>,
    String,
>)
    ensures
        lua_history(*final(lua)) == lua_history(*old(lua)).push(
            LuaOp::FindNamed { table: table@, name: name@, outcome: outcome(res) },
        ),
{
    lua.context(|ctx| {
        ctx.expire_registry_values();
        let table: Table = ctx.globals().get(table)?;
        let function = table.get::<_, Function>(name);
        Ok(function.and_then(|function| ctx.create_registry_value(function)).ok())
    }).map_err(|error: Error| error.to_string())
}

/// Wraps `Table::get` on a table that a global holds, for the function under a
/// number.
#[verifier::external_body]
pub(crate) fn find_numbered(lua: &mut Lua, table: &str, id: u32) -> (res: Result<
    RegistryKey,
    String,
>)
    ensures
        lua_history(*final(lua)) == lua_history(*old(lua)).push(
            LuaOp::FindNumbered { table: table@, id, outcome: outcome(res) },
        ),
{
    lua.context(|ctx| {
        ctx.expire_registry_values();
        let table: Table = ctx.globals().get(table)?;
        let function: Function = table.get(id)?;
        ctx.create_registry_value(function)
    }).map_err(|error: Error| error.to_string())
}

/// Wraps `Table::set` on a table that a global holds, for nothing under a number.
#[verifier::external_body]
pub(crate) fn clear_numbered(lua: &mut Lua, table: &str, id: u32) -> (res: Result<(), String>)
    ensures
        lua_history(*final(lua)) == lua_history(*old(lua)).push(
            LuaOp::ClearNumbered { table: table@, id, outcome: outcome(res) },
        ),
{
    lua.context(|ctx| {
        let table: Table = ctx.globals().get(table)?;
        table.set(id, Value::Nil)
    }).map_err(|error: Error| error.to_string())
}

/// Wraps `Function::call` without arguments. It comes back only if the function
/// does.
#[verifier::external_body]
pub(crate) fn call(lua: &mut Lua, function: &RegistryKey) -> (res: Result<(), String>)
    ensures
        lua_history(*final(lua)) == lua_history(*old(lua)).push(
            LuaOp::Call { function: *function, args: LuaArgs::Nothing, outcome: outcome(res) },
        ),
{
    lua.context(|ctx| ctx.registry_value::<Function>(function)?.call(())).map_err(
        |error: Error| error.to_string(),
    )
}

/// Wraps `Function::call` for a text. It comes back only if the function does.
#[verifier::external_body]
pub(crate) fn call_with_text(lua: &mut Lua, function: &RegistryKey, text: String) -> (res: Result<
    (),
    String,
>)
    ensures
        lua_history(*final(lua)) == lua_history(*old(lua)).push(
            LuaOp::Call {
                function: *function,
                args: LuaArgs::Text(text@),
                outcome: outcome(res),
            },
        ),
{
    lua.context(|ctx| ctx.registry_value::<Function>(function)?.call(text)).map_err(
        |error: Error| error.to_string(),
    )
}

/// Wraps `Function::call` for a host and a port. It comes back only if the
/// function does.
#[verifier::external_body]
pub(crate) fn call_with_address(
    lua: &mut Lua,
    function: &RegistryKey,
    host: &str,
    port: u16,
) -> (res: Result<(), String>)
    ensures
        lua_history(*final(lua)) == lua_history(*old(lua)).push(
            LuaOp::Call {
                function: *function,
                args: LuaArgs::Address(host@, port),
                outcome: outcome(res),
            },
        ),
{
    lua.context(|ctx| ctx.registry_value::<Function>(function)?.call((host, port))).map_err(
        |error: Error| error.to_string(),
    )
}

} // verus!
