//! Where the client keeps its things in the script state.

use vstd::prelude::*;

verus! {

/// The object through which scripts talk to the client.
pub const BLIGHT: &'static str = "blight";

/// The number that an alias or a trigger was last given. Scripts do not see it.
pub const LAST_NUMBER: &'static str = "last_number";

/// The aliases, by number.
pub const ALIAS_TABLE: &'static str = "__alias_table";

/// The triggers, by number.
pub const TRIGGER_TABLE: &'static str = "__trigger_table";

/// The triggers for prompts, by number.
pub const PROMPT_TRIGGER_TABLE: &'static str = "__prompt_trigger_table";

/// The functions that take GMCP messages, by the type of message.
pub const GMCP_LISTENER_TABLE: &'static str = "__gmcp_listener_table";

/// The functions that run after a time, by number.
pub const TIMED_FUNCTION_TABLE: &'static str = "__timed_function_table";

/// The functions that are bound to a key, by the name of the key.
pub const COMMAND_BINDING_TABLE: &'static str = "__command_binding_table";

/// Whether the line that a trigger is looking at is not to be shown.
pub const GAG_NEXT_TRIGGER_LINE: &'static str = "__gag_next_trigger_line";

/// The function to call once connected.
pub const ON_CONNCTION_CALLBACK: &'static str = "__on_connection_callback";

/// The function to call once disconnected.
pub const ON_DISCONNECT_CALLBACK: &'static str = "__on_disconnect_callback";

/// The function to call once the server talks GMCP.
pub const ON_GMCP_READY_CALLBACK: &'static str = "__on_gmcp_ready_callback";

/// The module that reads and writes JSON.
pub const JSON_MODULE: &'static str = "json";

/// No two things are kept in the same place.
pub proof fn law_names_differ()
    ensures
        seq![
            BLIGHT@,
            ALIAS_TABLE@,
            TRIGGER_TABLE@,
            PROMPT_TRIGGER_TABLE@,
            GMCP_LISTENER_TABLE@,
            TIMED_FUNCTION_TABLE@,
            COMMAND_BINDING_TABLE@,
            GAG_NEXT_TRIGGER_LINE@,
            ON_CONNCTION_CALLBACK@,
            ON_DISCONNECT_CALLBACK@,
            ON_GMCP_READY_CALLBACK@,
            JSON_MODULE@,
        ].no_duplicates(),
{
    reveal_strlit("blight");
    reveal_strlit("__alias_table");
    reveal_strlit("__trigger_table");
    reveal_strlit("__prompt_trigger_table");
    reveal_strlit("__gmcp_listener_table");
    reveal_strlit("__timed_function_table");
    reveal_strlit("__command_binding_table");
    reveal_strlit("__gag_next_trigger_line");
    reveal_strlit("__on_connection_callback");
    reveal_strlit("__on_disconnect_callback");
    reveal_strlit("__on_gmcp_ready_callback");
    reveal_strlit("json");
    assert(BLIGHT@.len() == 6 && ALIAS_TABLE@.len() == 13 && TRIGGER_TABLE@.len() == 15);
    assert(PROMPT_TRIGGER_TABLE@.len() == 22 && GMCP_LISTENER_TABLE@.len() == 21);
    assert(TIMED_FUNCTION_TABLE@.len() == 22 && COMMAND_BINDING_TABLE@.len() == 23);
    assert(GAG_NEXT_TRIGGER_LINE@.len() == 23 && ON_CONNCTION_CALLBACK@.len() == 24);
    assert(ON_DISCONNECT_CALLBACK@.len() == 24 && ON_GMCP_READY_CALLBACK@.len() == 24);
    assert(JSON_MODULE@.len() == 4);
    assert(PROMPT_TRIGGER_TABLE@[2] == 'p' && TIMED_FUNCTION_TABLE@[2] == 't');
    assert(COMMAND_BINDING_TABLE@[2] == 'c' && GAG_NEXT_TRIGGER_LINE@[2] == 'g');
    assert(ON_CONNCTION_CALLBACK@[5] == 'c' && ON_DISCONNECT_CALLBACK@[5] == 'd'
        && ON_GMCP_READY_CALLBACK@[5] == 'g');
}

} // verus!
