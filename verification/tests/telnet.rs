use blightmud::event::{Event, Fault};
use blightmud::output_buffer::OutputBuffer;
use blightmud::telnet::{Session, TelnetEvent, TelnetHandler, GA};
use libtelnet_rs::compatibility::CompatibilityTable;
use libtelnet_rs::telnet::op_command;
use libtelnet_rs::telnet::op_option;
use libtelnet_rs::Parser;
use std::sync::mpsc::{channel, Receiver};

fn handler_with(parser: Parser) -> (TelnetHandler, Receiver<Event>) {
    let (writer, reader) = channel();
    let session = Session {
        telnet_parser: parser,
        main_thread_writer: writer,
    };
    assert!(session.is_serviceable());
    (TelnetHandler::new(session), reader)
}

fn handler() -> (TelnetHandler, Receiver<Event>) {
    handler_with(Parser::new())
}

fn events(reader: &Receiver<Event>) -> Vec<Event> {
    reader.try_iter().collect()
}

#[test]
fn lines_are_joined_and_the_rest_waits() {
    let (mut handler, reader) = handler();
    assert_eq!(handler.parse(b"one\r\ntwo\r\nthr"), Ok(()));
    assert_eq!(events(&reader), [Event::Output("one\r\ntwo".to_string())]);
    assert_eq!(handler.parse(b"ee\r\n"), Ok(()));
    assert_eq!(events(&reader), [Event::Output("three".to_string())]);
}

#[test]
fn data_without_a_whole_line_is_an_empty_output() {
    let (mut handler, reader) = handler();
    assert_eq!(handler.parse(b"half a line"), Ok(()));
    assert_eq!(events(&reader), [Event::Output(String::new())]);
}

#[test]
fn no_data_is_no_event() {
    let (mut handler, reader) = handler();
    assert_eq!(handler.parse(b""), Ok(()));
    assert_eq!(events(&reader), []);
}

#[test]
fn go_ahead_makes_a_prompt() {
    let (mut handler, reader) = handler();
    assert_eq!(handler.parse(b"a room\r\nHealth 10> \xff\xf9"), Ok(()));
    assert_eq!(
        events(&reader),
        [
            Event::Output("a room".to_string()),
            Event::Prompt("Health 10> ".to_string()),
        ]
    );
    assert_eq!(handler.parse(b"\xff\xf9"), Ok(()));
    assert_eq!(events(&reader), [Event::Prompt(String::new())]);
    assert_eq!(GA, op_command::GA);
}

#[test]
fn other_commands_are_ignored() {
    let (mut handler, reader) = handler();
    assert_eq!(handler.parse(&[255, op_command::NOP]), Ok(()));
    assert_eq!(events(&reader), []);
}

#[test]
fn replies_go_to_the_server() {
    let (mut handler, reader) = handler();
    let will_echo = [255, op_command::WILL, op_option::ECHO];
    assert_eq!(handler.parse(&will_echo), Ok(()));
    assert_eq!(
        events(&reader),
        [Event::ServerSend(vec![255, op_command::DONT, op_option::ECHO])]
    );
}

#[test]
fn supported_options_are_accepted_once() {
    let mut table = CompatibilityTable::new();
    table.support(op_option::GMCP);
    let (mut handler, reader) = handler_with(Parser::with_support(table));
    let will_gmcp = [255, op_command::WILL, op_option::GMCP];
    assert_eq!(handler.parse(&will_gmcp), Ok(()));
    assert_eq!(
        events(&reader),
        [Event::ServerSend(vec![255, op_command::DO, op_option::GMCP])]
    );
    assert_eq!(handler.parse(&will_gmcp), Ok(()));
    assert_eq!(events(&reader), []);
}

#[test]
fn subnegotiations_wait_for_their_end() {
    let (mut handler, reader) = handler();
    assert_eq!(handler.parse(&[255, 250, 201, 65]), Ok(()));
    assert_eq!(events(&reader), []);
    assert_eq!(handler.parse(b"B\xff\xf0text\r\n"), Ok(()));
    assert_eq!(events(&reader), [Event::Output("text".to_string())]);
}

#[test]
fn events_are_handled_in_order() {
    let (mut handler, reader) = handler();
    let res = handler.handle_events(vec![
        TelnetEvent::DataReceive(b"x\ny".to_vec()),
        TelnetEvent::Negotiation(251, 1),
        TelnetEvent::DataSend(vec![]),
        TelnetEvent::DataSend(vec![1, 2]),
        TelnetEvent::Subnegotiation(201, vec![7]),
        TelnetEvent::DataReceive(vec![]),
        TelnetEvent::DecompressImmediate(vec![9]),
        TelnetEvent::Iac(241),
        TelnetEvent::Iac(249),
    ]);
    assert_eq!(res, Ok(()));
    assert_eq!(
        events(&reader),
        [
            Event::Output("x".to_string()),
            Event::ServerSend(vec![1, 2]),
            Event::Prompt("y".to_string()),
        ]
    );
}

#[test]
fn batches_do_not_matter() {
    let (mut handler_a, reader_a) = handler();
    let (mut handler_b, reader_b) = handler();
    let first = vec![TelnetEvent::DataReceive(b"a\nb".to_vec())];
    let second = vec![TelnetEvent::DataReceive(b"c\n".to_vec()), TelnetEvent::Iac(249)];
    let mut all = first.clone();
    all.extend(second.clone());
    assert_eq!(handler_a.handle_events(all), Ok(()));
    assert_eq!(handler_b.handle_events(first), Ok(()));
    assert_eq!(handler_b.handle_events(second), Ok(()));
    assert_eq!(events(&reader_a), events(&reader_b));
}

#[test]
fn a_closed_channel_is_a_fault() {
    let (mut handler, reader) = handler();
    drop(reader);
    assert_eq!(handler.parse(b"text\r\n"), Err(Fault::Closed));
    assert_eq!(handler.parse(b""), Ok(()));
}

#[test]
fn the_option_that_looks_like_a_command_is_not_served() {
    let (writer, _reader) = channel();
    let mut table = CompatibilityTable::new();
    table.support_local(255);
    let session = Session {
        telnet_parser: Parser::with_support(table),
        main_thread_writer: writer,
    };
    assert!(!session.is_serviceable());
}

#[test]
fn the_parser_can_be_borrowed() {
    let (mut handler, reader) = handler();
    assert_eq!(handler.parse(b"half"), Ok(()));
    assert_eq!(events(&reader).len(), 1);
    handler.parser().options.support(op_option::GMCP);
    assert!(handler.is_serviceable());
    let will_gmcp = [255, op_command::WILL, op_option::GMCP];
    assert_eq!(handler.parse(&will_gmcp), Ok(()));
    assert_eq!(
        events(&reader),
        [Event::ServerSend(vec![255, op_command::DO, op_option::GMCP])]
    );
    assert_eq!(handler.parse(b" a line\n"), Ok(()));
    assert_eq!(events(&reader), [Event::Output("half a line".to_string())]);
    handler.parser().options.support_local(255);
    assert!(!handler.is_serviceable());
}

#[test]
fn output_buffer_cuts_lines() {
    let mut buffer = OutputBuffer::new();
    assert_eq!(buffer.receive(b"one\r\ntwo\nthree\r"), ["one", "two"]);
    assert_eq!(buffer.receive(b"\n\r\n"), ["three", ""]);
    assert_eq!(buffer.receive(b"rest"), Vec::<String>::new());
    assert_eq!(buffer.prompt(), "");
    buffer.buffer_to_prompt();
    assert_eq!(buffer.prompt(), "rest");
    assert_eq!(buffer.receive(b"\n"), [""]);
    assert_eq!(buffer.prompt(), "rest");
}

#[test]
fn output_buffer_does_not_care_about_pieces() {
    let text = "gr\u{fc}n\r\nrot\r\nblau".as_bytes();
    let mut whole = OutputBuffer::new();
    let expected = whole.receive(text);
    whole.buffer_to_prompt();
    for cut in 0..text.len() {
        let mut buffer = OutputBuffer::new();
        let mut lines = buffer.receive(&text[..cut]);
        lines.extend(buffer.receive(&text[cut..]));
        buffer.buffer_to_prompt();
        assert_eq!(lines, expected);
        assert_eq!(buffer.prompt(), whole.prompt());
    }
}
