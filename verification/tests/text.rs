use blightmud::event::{output_stack_trace, send_all, Event, Fault};
use blightmud::line::{strip_escapes, Line};
use blightmud::lua::lua_script::fault_of;
use blightmud::lua::matcher::{captures_if_enabled, texts_of_groups, Alias, Trigger};
use blightmud::text::{chars_of, join, split, split_at_first};
use std::sync::mpsc::channel;

fn strings(parts: &[&str]) -> Vec<String> {
    parts.iter().map(|part| part.to_string()).collect()
}

#[test]
fn characters_are_listed() {
    assert_eq!(chars_of("a\u{e5}b"), ['a', '\u{e5}', 'b']);
}

#[test]
fn splitting_and_joining() {
    assert_eq!(split("a,b,,c", ','), strings(&["a", "b", "", "c"]));
    assert_eq!(split("", ','), strings(&[""]));
    assert_eq!(join(&split("a,b,,c", ','), ","), "a,b,,c");
    assert_eq!(join(&strings(&["x", "y"]), "\r\n"), "x\r\ny");
    assert_eq!(join(&vec![], ", "), "");
}

#[test]
fn splitting_at_the_first_separator() {
    assert_eq!(
        split_at_first("Core.Hello {} {}", ' '),
        Some(("Core.Hello".to_string(), "{} {}".to_string()))
    );
    assert_eq!(split_at_first(" x", ' '), Some((String::new(), "x".to_string())));
    assert_eq!(split_at_first("nothing", ' '), None);
}

#[test]
fn escape_sequences_are_removed() {
    assert_eq!(strip_escapes("\x1b[31mtest\x1b[0m"), "test");
    assert_eq!(strip_escapes("a\x1b[1;32mb\x1b[Kc"), "abc");
    assert_eq!(strip_escapes("a\x1b7b"), "ab");
    assert_eq!(strip_escapes("cut\x1b[31"), "cut");
    assert_eq!(strip_escapes("cut\x1b"), "cut");
    assert_eq!(strip_escapes("plain [text]"), "plain [text]");
}

#[test]
fn lines_keep_text_and_bytes() {
    let line = Line::from("\x1b[1mbold\x1b[0m");
    assert_eq!(line.line(), "\x1b[1mbold\x1b[0m");
    assert_eq!(line.clean_line(), "bold");
    assert_eq!(line.content(), b"\x1b[1mbold\x1b[0m");
    assert!(!line.flags.matched && !line.flags.gag && !line.flags.bypass_script);
    assert_eq!(line, Line::from("\x1b[1mbold\x1b[0m".to_string()));
    assert_eq!(line.clone(), line);

    let bytes = Line::from(vec![0x61, 0xff, 0x62]);
    assert_eq!(bytes.line(), "a\u{fffd}b");
    assert_eq!(bytes.content(), [0x61, 0xff, 0x62]);
    assert_eq!(Line::from(&b"text".to_vec()), Line::from("text"));
}

#[test]
fn flags_can_be_changed() {
    let mut line = Line::from("text");
    let mut flags = line.flags();
    flags.gag = true;
    line.set_flags(flags);
    assert!(line.flags.gag);
    assert_eq!(line.line(), "text");
    assert_ne!(line, Line::from("text"));
}

#[test]
fn events_are_sent_in_order() {
    let (mut writer, reader) = channel();
    assert!(send_all(&mut writer, vec![Event::ResetScript, Event::StopLogging]));
    assert!(output_stack_trace(&mut writer, "one\ntwo"));
    let events: Vec<Event> = reader.try_iter().collect();
    assert_eq!(
        events,
        [
            Event::ResetScript,
            Event::StopLogging,
            Event::Error("one".to_string()),
            Event::Error("two".to_string()),
        ]
    );
    drop(reader);
    assert!(!send_all(&mut writer, vec![Event::ResetScript]));
    assert!(!output_stack_trace(&mut writer, ""));
    assert!(send_all(&mut writer, vec![]));
}

#[test]
fn groups_that_took_no_part_are_empty() {
    let groups = vec![Some("ac".to_string()), None, Some("c".to_string())];
    assert_eq!(captures_if_enabled(false, Some(groups.clone())), None);
    assert_eq!(
        captures_if_enabled(true, Some(groups.clone())),
        Some(strings(&["ac", "", "c"]))
    );
    assert_eq!(captures_if_enabled(true, None), None);
    assert_eq!(texts_of_groups(groups), strings(&["ac", "", "c"]));
}

#[test]
fn messages_become_faults() {
    assert_eq!(fault_of(Ok(())), Ok(()));
    assert_eq!(fault_of(Err("x".to_string())), Err(Fault::Script("x".to_string())));
}

#[test]
fn aliases_match_the_clean_line() {
    let mut alias = Alias::create("^go (\\w+)( fast)?$").unwrap();
    assert_eq!(
        alias.captures(&Line::from("go \x1b[1mnorth")),
        Some(strings(&["go north", "north", ""]))
    );
    assert_eq!(alias.captures(&Line::from("stay")), None);
    alias.enable(false);
    assert_eq!(alias.captures(&Line::from("go north")), None);
    alias.enable(true);
    assert_eq!(
        alias.clone().captures(&Line::from("go north fast")),
        Some(strings(&["go north fast", "north", " fast"]))
    );
}

#[test]
fn triggers_match_the_clean_or_the_raw_line() {
    let line = Line::from("\x1b[31mred\x1b[0m");
    let clean = Trigger::create("^(r)ed$", false, false).unwrap();
    let raw = Trigger::create("^\\x1b\\[31m(r)ed", true, true).unwrap();
    assert_eq!(clean.captures(&line), Some(strings(&["red", "r"])));
    assert_eq!(raw.captures(&line), Some(strings(&["\x1b[31mred", "r"])));
    assert_eq!(raw.captures(&Line::from("red")), None);
    assert!(raw.gags() && !clean.gags());
    let mut off = clean.clone();
    off.enable(false);
    assert_eq!(off.captures(&line), None);
}

#[test]
fn bad_patterns_are_refused() {
    let message = Alias::create("(").err().unwrap();
    assert!(message.contains("unclosed group"));
    let message = Trigger::create("*", false, false).err().unwrap();
    assert!(message.contains("repetition"));
}
