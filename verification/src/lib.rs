//! The scripting and telnet core of a MUD client.
//!
//! [`lua::lua_script::LuaScript`] runs the user's Lua scripts: it matches lines
//! against the aliases and triggers that the scripts have set up, calls their
//! callbacks and reports what goes wrong in them. [`telnet::TelnetHandler`] turns
//! the bytes of a connection into lines, prompts and replies.

pub mod event;
pub mod line;
pub mod lua;
pub mod output_buffer;
pub mod telnet;
pub mod text;

use vstd::prelude::*;

verus! {

/// The name of the client.
pub const PROJECT_NAME: &'static str = "blightmud";

/// The version of the client.
pub const VERSION: &'static str = "0.1.0";

} // verus!
