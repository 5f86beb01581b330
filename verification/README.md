# blightmud

The scripting and telnet core of a MUD client, verified with Verus.

- `src/lua/` is the script state. `lua_script.rs` holds its functions, `effects.rs`
  says what they do, `laws.rs` and `recall.rs` what follows for any use of them.
  `callbacks.rs` holds what scripts call to register something, `registration.rs` what
  is registered then.
  `interpreter.rs` is the way to the Lua interpreter of `rlua`. A script can do
  anything, so what is stated of the interpreter is what was asked of it and what it
  answered; every contract is said over that record.
- `src/telnet.rs` turns the bytes of a connection into events, with the parser of
  `libtelnet_rs`. `src/output_buffer.rs` cuts bytes into lines and prompts.
- `src/event.rs`, `src/line.rs` and `src/text.rs` are what the others are made of.
- `app/` reads script files and shares a telnet handler between threads.
