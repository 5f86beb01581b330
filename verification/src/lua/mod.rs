//! The user's Lua scripts.

pub mod blight;
pub mod callbacks;
pub mod constants;
pub mod effects;
pub mod interpreter;
pub mod laws;
pub mod lua_script;
pub mod matcher;
pub mod recall;
pub mod record;
pub mod registration;
pub mod resources;
pub mod visits;
