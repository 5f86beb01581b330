//! From the bytes of a telnet connection to lines, prompts and replies.

use crate::event::{event_channel, outbox, send, Event, EventView, Fault, FaultView, Outbox};
use crate::output_buffer::{
    law_nothing_is_lost, law_prompt_is_the_unfinished_line, law_receiving_in_pieces,
    lemma_received_wf, unfinished_line, OutputBuffer, OutputBufferView, LINE_FEED,
};
use crate::text::{
    decoded, join, joined, law_joined_of_concatenation, law_joined_of_one, law_pieces_are_one_more,
    law_pieces_hold_no_separator, law_pieces_joined, law_pieces_without_separator, occurrences,
    pieces, utf8_lossy,
};
use libtelnet_rs::events::TelnetEvents;
use libtelnet_rs::Parser;
use std::sync::mpsc::Sender;
use vstd::prelude::*;
use vstd::utf8::{decode_utf8, valid_utf8};

verus! {

/// The byte that opens a telnet command.
pub const IAC: u8 = 255;

/// The telnet command that ends a prompt.
pub const GA: u8 = 249;

/// The telnet option whose code is also the byte that opens a command.
pub const EXOPL: u8 = 255;

/// What a telnet parser has found in the bytes of a connection.
#[derive(Clone, Debug, PartialEq, Eq)]
pub enum TelnetEvent {
    /// A command of one byte.
    Iac(u8),
    /// A command about an option.
    Negotiation(u8, u8),
    /// The data that goes with an option.
    Subnegotiation(u8, Vec<u8>),
    /// Bytes for the user.
    DataReceive(Vec<u8>),
    /// Bytes for the server.
    DataSend(Vec<u8>),
    /// Bytes that are to be decompressed.
    DecompressImmediate(Vec<u8>),
}

pub ghost enum TelnetEventView {
    Iac(u8),
    Negotiation(u8, u8),
    Subnegotiation(u8, Seq<u8>),
    DataReceive(Seq<u8>),
    DataSend(Seq<u8>),
    DecompressImmediate(Seq<u8>),
}

impl View for TelnetEvent {
    type V = TelnetEventView;

    open spec fn view(&self) -> TelnetEventView {
        match self {
            TelnetEvent::Iac(command) => TelnetEventView::Iac(*command),
            TelnetEvent::Negotiation(command, option) => TelnetEventView::Negotiation(
                *command,
                *option,
            ),
            TelnetEvent::Subnegotiation(option, data) => TelnetEventView::Subnegotiation(
                *option,
                data@,
            ),
            TelnetEvent::DataReceive(data) => TelnetEventView::DataReceive(data@),
            TelnetEvent::DataSend(data) => TelnetEventView::DataSend(data@),
            TelnetEvent::DecompressImmediate(data) => TelnetEventView::DecompressImmediate(data@),
        }
    }
}

/// What each of the events says.
pub open spec fn telnet_views(events: Seq<TelnetEvent>) -> Seq<TelnetEventView> {
    events.map_values(|event: TelnetEvent| event@)
}

/// How a parser treats a telnet option.
#[derive(Clone, Copy, Debug, PartialEq, Eq, Structural)]
pub struct OptionState {
    /// This side can use the option.
    pub local: bool,
    /// The other side may use the option.
    pub remote: bool,
    /// This side uses the option.
    pub local_state: bool,
    /// The other side uses the option.
    pub remote_state: bool,
}

/// A telnet parser: the outside type `libtelnet_rs::Parser`.
#[verifier::external_type_specification]
#[verifier::external_body]
pub struct ExParser(Parser);

/// The bytes that a parser keeps until the rest of a command has come in.
pub uninterp spec fn parser_pending(parser: Parser) -> Seq<u8>;

/// How a parser treats each option.
pub uninterp spec fn parser_options(parser: Parser) -> Map<u8, OptionState>;

/// What a parser makes of bytes: the events that it finds, how it treats the
/// options from then on, and the bytes that it keeps.
pub ghost struct TelnetStep {
    pub events: Seq<TelnetEventView>,
    pub options: Map<u8, OptionState>,
    pub pending: Seq<u8>,
}

/// What `Parser::receive` makes of the bytes kept so far with the new ones behind
/// them, for a parser that treats the options in the given way.
pub uninterp spec fn telnet_receive(
    options: Map<u8, OptionState>,
    bytes: Seq<u8>,
) -> TelnetStep;

/// Wraps `Parser::receive`. What comes of it depends on the options, the bytes
/// kept and the new bytes alone. Which options this side can use never changes.
/// Bytes without a command are data for the user, and so are bytes that go
/// before a go-ahead at the end of them.
///
/// `receive` panics on an empty subnegotiation of option 255 where this side
/// uses that option, so the parser must not support it.
#[verifier::external_body]
fn receive(parser: &mut Parser, data: &[u8]) -> (events: Vec<TelnetEvent>)
    requires
        !parser_options(*old(parser))[EXOPL].local,
    ensures
        ({
            let bytes = parser_pending(*old(parser)) + data@;
            let step = telnet_receive(parser_options(*old(parser)), bytes);
            &&& telnet_views(events@) == step.events
            &&& parser_options(*final(parser)) == step.options
            &&& parser_pending(*final(parser)) == step.pending
            &&& plain_data(bytes) ==> {
                &&& telnet_views(events@) == data_event(bytes)
                &&& parser_pending(*final(parser)) == Seq::<u8>::empty()
                &&& parser_options(*final(parser)) == parser_options(*old(parser))
            }
            &&& data_and_go_ahead(bytes) ==> {
                &&& telnet_views(events@) == data_event(bytes.take(bytes.len() - 2)).push(
                    TelnetEventView::Iac(GA),
                )
                &&& parser_pending(*final(parser)) == Seq::<u8>::empty()
                &&& parser_options(*final(parser)) == parser_options(*old(parser))
            }
        }),
        forall|option: u8| #[trigger]
            parser_options(*final(parser))[option].local == parser_options(
                *old(parser),
            )[option].local,
{
    let found = parser.receive(data);
    found.into_iter().map(|event| match event {
        TelnetEvents::IAC(iac) => TelnetEvent::Iac(iac.command),
        TelnetEvents::Negotiation(n) => TelnetEvent::Negotiation(n.command, n.option),
        TelnetEvents::Subnegotiation(s) => TelnetEvent::Subnegotiation(s.option, s.buffer),
        TelnetEvents::DataReceive(data) => TelnetEvent::DataReceive(data),
        TelnetEvents::DataSend(data) => TelnetEvent::DataSend(data),
        TelnetEvents::DecompressImmediate(data) => TelnetEvent::DecompressImmediate(data),
    }).collect()
}

/// Wraps `CompatibilityTable::get_option` on the public table of a parser.
#[verifier::external_body]
fn option_state(parser: &Parser, option: u8) -> (state: OptionState)
    ensures
        state == parser_options(*parser)[option],
{
    let entry = parser.options.get_option(option);
    OptionState {
        local: entry.local,
        remote: entry.remote,
        local_state: entry.local_state,
        remote_state: entry.remote_state,
    }
}

/// Bytes that hold no telnet command.
pub open spec fn plain_data(bytes: Seq<u8>) -> bool {
    !bytes.contains(IAC)
}

/// Bytes whose only telnet command is a go-ahead at their end.
pub open spec fn data_and_go_ahead(bytes: Seq<u8>) -> bool {
    &&& bytes.len() >= 2
    &&& bytes[bytes.len() - 2] == IAC
    &&& bytes[bytes.len() - 1] == GA
    &&& plain_data(bytes.take(bytes.len() - 2))
}

/// The events of bytes without a command.
pub open spec fn data_event(bytes: Seq<u8>) -> Seq<TelnetEventView> {
    if bytes.len() == 0 {
        Seq::empty()
    } else {
        seq![TelnetEventView::DataReceive(bytes)]
    }
}

/// What has become of the output buffer, and what has been sent.
pub ghost struct Handled {
    pub buffer: OutputBufferView,
    pub sent: Seq<EventView>,
}

/// What one telnet event does: a go-ahead makes the unfinished line the prompt,
/// data for the server is sent there, data for the user goes through the output
/// buffer, and everything else, empty data included, does nothing.
pub open spec fn handled_one(buffer: OutputBufferView, event: TelnetEventView) -> Handled {
    match event {
        TelnetEventView::Iac(command) if command == GA => Handled {
            buffer: buffer.prompted(),
            sent: seq![EventView::Prompt(buffer.prompted().prompt)],
        },
        TelnetEventView::DataSend(data) if data.len() > 0 => Handled {
            buffer,
            sent: seq![EventView::ServerSend(data)],
        },
        TelnetEventView::DataReceive(data) if data.len() > 0 => Handled {
            buffer: buffer.received(data),
            sent: seq![EventView::Output(joined(buffer.new_lines(data), "\r\n"@))],
        },
        _ => Handled { buffer, sent: Seq::empty() },
    }
}

/// What telnet events do, one after the other.
pub open spec fn handled(buffer: OutputBufferView, events: Seq<TelnetEventView>) -> Handled
    decreases events.len(),
{
    if events.len() == 0 {
        Handled { buffer, sent: Seq::empty() }
    } else {
        let before = handled(buffer, events.drop_last());
        let last = handled_one(before.buffer, events.last());
        Handled { buffer: last.buffer, sent: before.sent + last.sent }
    }
}

/// Events do the same whether they come in one batch or in two.
pub proof fn law_handling_in_batches(
    buffer: OutputBufferView,
    first: Seq<TelnetEventView>,
    second: Seq<TelnetEventView>,
)
    ensures
        ({
            let before = handled(buffer, first);
            let after = handled(before.buffer, second);
            handled(buffer, first + second) == Handled {
                buffer: after.buffer,
                sent: before.sent + after.sent,
            }
        }),
    decreases second.len(),
{
    if second.len() == 0 {
        assert(first + second =~= first);
        assert(handled(buffer, first).sent + Seq::<EventView>::empty() =~= handled(
            buffer,
            first,
        ).sent);
    } else {
        law_handling_in_batches(buffer, first, second.drop_last());
        assert((first + second).drop_last() =~= first + second.drop_last());
        let before = handled(buffer, first);
        let mid = handled(before.buffer, second.drop_last());
        let last = handled_one(mid.buffer, second.last());
        assert((before.sent + mid.sent) + last.sent =~= before.sent + (mid.sent + last.sent));
    }
}

/// A go-ahead makes a prompt of what has come in since the last whole line, and
/// nothing of it is left for the next line.
pub proof fn law_go_ahead_prompts(buffer: OutputBufferView, text: Seq<u8>)
    requires
        buffer.wf(),
    ensures
        ({
            let done = handled(buffer, data_event(text).push(TelnetEventView::Iac(GA)));
            let prompt = decoded(unfinished_line(buffer.buffer + text));
            &&& done.sent.len() > 0
            &&& done.sent.last() == EventView::Prompt(prompt)
            &&& done.buffer == OutputBufferView { buffer: Seq::empty(), prompt }
        }),
{
    let events = data_event(text).push(TelnetEventView::Iac(GA));
    let before = handled(buffer, data_event(text));
    assert(events.drop_last() =~= data_event(text));
    assert(handled(buffer, Seq::empty()).buffer == buffer);
    if text.len() == 0 {
        assert(buffer.buffer + text =~= buffer.buffer);
        law_pieces_without_separator(buffer.buffer, LINE_FEED);
    } else {
        assert(data_event(text).drop_last() =~= Seq::empty());
        assert(data_event(text).last() == TelnetEventView::DataReceive(text));
    }
    assert(before.buffer.buffer == unfinished_line(buffer.buffer + text));
    assert(events.last() == TelnetEventView::Iac(GA));
}

/// An event that says nothing to the user, the server or the prompt.
pub open spec fn silent(event: TelnetEventView) -> bool {
    match event {
        TelnetEventView::Iac(command) => command != GA,
        TelnetEventView::DataSend(data) => data.len() == 0,
        TelnetEventView::DataReceive(data) => data.len() == 0,
        _ => true,
    }
}

/// Negotiations, other commands and empty data go by without a trace.
pub proof fn law_silent_events_do_nothing(buffer: OutputBufferView, events: Seq<TelnetEventView>)
    requires
        forall|i: int| 0 <= i < events.len() ==> silent(#[trigger] events[i]),
    ensures
        handled(buffer, events) == (Handled { buffer, sent: Seq::empty() }),
    decreases events.len(),
{
    if events.len() > 0 {
        let front = events.drop_last();
        assert(silent(events[events.len() - 1]));
        assert forall|i: int| 0 <= i < front.len() implies silent(#[trigger] front[i]) by {
            assert(silent(events[i]));
        }
        law_silent_events_do_nothing(buffer, front);
        assert(handled(buffer, events).sent =~= Seq::empty());
    }
}

/// Text that the server sends in two pieces reaches the user as if it had come in
/// one, but for the division into messages: the line and the prompt are the same.
pub proof fn law_text_in_pieces(buffer: OutputBufferView, first: Seq<u8>, second: Seq<u8>)
    requires
        buffer.wf(),
    ensures
        handled(buffer, data_event(first) + data_event(second)).buffer == handled(
            buffer,
            data_event(first + second),
        ).buffer,
{
    law_handling_in_batches(buffer, data_event(first), data_event(second));
    law_receiving_in_pieces(buffer, first, second);
    law_pieces_without_separator(buffer.buffer, LINE_FEED);
    reveal_with_fuel(handled, 2);
    assert forall|bytes: Seq<u8>| bytes.len() > 0 implies #[trigger] data_event(
        bytes,
    ).drop_last() == Seq::<TelnetEventView>::empty() by {
        assert(data_event(bytes).drop_last() =~= Seq::empty());
    }
    if first.len() == 0 {
        assert(first + second =~= second);
    }
    if second.len() == 0 {
        assert(first + second =~= first);
    }
}

/// No events do nothing.
pub proof fn law_no_events_do_nothing(buffer: OutputBufferView)
    ensures
        handled(buffer, Seq::empty()).buffer == buffer,
        handled(buffer, Seq::empty()).sent == Seq::<EventView>::empty(),
{
}

proof fn lemma_one_event(buffer: OutputBufferView, event: TelnetEventView)
    ensures
        handled(buffer, seq![event]).buffer == handled_one(buffer, event).buffer,
        handled(buffer, seq![event]).sent == handled_one(buffer, event).sent,
{
    reveal_with_fuel(handled, 2);
    assert(seq![event].drop_last() =~= Seq::empty());
    assert(Seq::<EventView>::empty() + handled_one(buffer, event).sent =~= handled_one(
        buffer,
        event,
    ).sent);
}

/// Data for the user is shown, all of it: one message holds every line that the data
/// finishes, whole and in order, with a carriage return and a line feed between each two
/// of them. There are as many lines as there are line feeds. What follows the last one
/// waits.
pub proof fn law_data_is_shown(buffer: OutputBufferView, data: Seq<u8>)
    requires
        data.len() > 0,
    ensures
        ({
            let done = handled(buffer, seq![TelnetEventView::DataReceive(data)]);
            &&& done.sent.len() == 1
            &&& done.buffer.prompt == buffer.prompt
            &&& exists|parts: Seq<Seq<u8>>, lines: Seq<Seq<char>>|
                {
                    &&& #[trigger] joined(parts, seq![10u8]) == buffer.buffer + data
                    &&& parts.len() == occurrences(buffer.buffer + data, 10u8) + 1
                    &&& forall|i: int|
                        0 <= i < parts.len() ==> !(#[trigger] parts[i]).contains(10u8)
                    &&& done.buffer.buffer == parts.last()
                    &&& lines.len() == parts.len() - 1
                    &&& forall|i: int|
                        0 <= i < lines.len() ==> {
                            let line = if parts[i].len() > 0 && parts[i].last() == 13u8 {
                                parts[i].drop_last()
                            } else {
                                parts[i]
                            };
                            &&& valid_utf8(line) ==> #[trigger] lines[i] == decode_utf8(line)
                            &&& !valid_utf8(line) ==> lines[i] == utf8_lossy(line)
                        }
                    &&& done.sent[0] == EventView::Output(
                        #[trigger] joined(lines, "\r\n"@),
                    )
                }
        }),
{
    lemma_one_event(buffer, TelnetEventView::DataReceive(data));
    law_nothing_is_lost(buffer, data);
    let lines = buffer.new_lines(data);
    let parts = choose|parts: Seq<Seq<u8>>|
        {
            &&& #[trigger] joined(parts, seq![10u8]) == buffer.buffer + data
            &&& parts.len() == lines.len() + 1
            &&& forall|i: int| 0 <= i < parts.len() ==> !(#[trigger] parts[i]).contains(10u8)
            &&& forall|i: int|
                0 <= i < parts.len() - 1 ==> {
                    let line = if (#[trigger] parts[i]).len() > 0 && parts[i].last() == 13u8 {
                        parts[i].drop_last()
                    } else {
                        parts[i]
                    };
                    &&& valid_utf8(line) ==> lines[i] == decode_utf8(line)
                    &&& !valid_utf8(line) ==> lines[i] == utf8_lossy(line)
                }
            &&& buffer.received(data).buffer == parts.last()
        };
    assert(joined(parts, seq![10u8]) == buffer.buffer + data);
    assert(handled(buffer, seq![TelnetEventView::DataReceive(data)]).sent[0] == EventView::Output(
        joined(lines, "\r\n"@),
    ));
    assert forall|i: int| 0 <= i < lines.len() implies {
        let line = if parts[i].len() > 0 && parts[i].last() == 13u8 {
            parts[i].drop_last()
        } else {
            parts[i]
        };
        &&& valid_utf8(line) ==> #[trigger] lines[i] == decode_utf8(line)
        &&& !valid_utf8(line) ==> lines[i] == utf8_lossy(line)
    } by {
        assert(parts[i].len() >= 0);
    }
}

/// What is shown of two pieces of data that both finish a line is, put together, what is
/// shown of them as one. A piece that finishes no line shows nothing by itself.
pub proof fn law_shown_text_adds_up(buffer: OutputBufferView, first: Seq<u8>, second: Seq<u8>)
    requires
        buffer.wf(),
        first.len() > 0,
        second.len() > 0,
    ensures
        ({
            let one = handled(buffer, seq![TelnetEventView::DataReceive(first)]);
            let two = handled(one.buffer, seq![TelnetEventView::DataReceive(second)]);
            let both = handled(buffer, seq![TelnetEventView::DataReceive(first + second)]);
            &&& one.sent[0] matches EventView::Output(a)
            &&& two.sent[0] matches EventView::Output(b)
            &&& both.sent[0] matches EventView::Output(all)
            &&& both.buffer == two.buffer
            &&& all == if !first.contains(10u8) {
                b
            } else if !second.contains(10u8) {
                a
            } else {
                a + "\r\n"@ + b
            }
            &&& !first.contains(10u8) ==> a == Seq::<char>::empty()
            &&& !second.contains(10u8) ==> b == Seq::<char>::empty()
        }),
{
    lemma_one_event(buffer, TelnetEventView::DataReceive(first));
    lemma_one_event(buffer, TelnetEventView::DataReceive(first + second));
    let between = buffer.received(first);
    lemma_one_event(between, TelnetEventView::DataReceive(second));
    law_receiving_in_pieces(buffer, first, second);
    lemma_received_wf(buffer, first);
    let a = buffer.new_lines(first);
    let b = between.new_lines(second);
    lemma_lines_of(buffer, first);
    lemma_lines_of(between, second);
    law_joined_of_one(Seq::<char>::empty(), "\r\n"@);
    if a.len() == 0 {
        assert(a =~= Seq::empty());
        assert(a + b =~= b);
    } else if b.len() == 0 {
        assert(b =~= Seq::empty());
        assert(a + b =~= a);
    } else {
        law_joined_of_concatenation(a, b, "\r\n"@);
    }
    if !first.contains(10u8) {
        assert(a =~= Seq::empty());
    }
    if !second.contains(10u8) {
        assert(b =~= Seq::empty());
    }
}

/// Data finishes a line exactly if it holds a line feed.
proof fn lemma_lines_of(buffer: OutputBufferView, data: Seq<u8>)
    requires
        buffer.wf(),
    ensures
        buffer.new_lines(data).len() == 0 <==> !data.contains(10u8),
{
    let bytes = buffer.buffer + data;
    law_nothing_is_lost(buffer, data);
    law_pieces_are_one_more(bytes, 10u8);
    if !data.contains(10u8) {
        assert forall|i: int| 0 <= i < bytes.len() implies bytes[i] != 10u8 by {
            if i < buffer.buffer.len() {
                assert(buffer.buffer.contains(bytes[i]));
            } else {
                assert(data.contains(bytes[i]));
            }
        }
        law_pieces_without_separator(bytes, 10u8);
    } else if buffer.new_lines(data).len() == 0 {
        law_pieces_hold_no_separator(bytes, 10u8);
        law_pieces_joined(bytes, 10u8);
        let i = choose|i: int| 0 <= i < data.len() && data[i] == 10u8;
        assert(bytes[buffer.buffer.len() + i] == 10u8);
        assert(bytes.contains(10u8));
        assert(!pieces(bytes, 10u8)[0].contains(10u8));
        assert(joined(pieces(bytes, 10u8), seq![10u8]) == pieces(bytes, 10u8)[0]);
    }
}

/// A go-ahead makes a prompt of all that waits in the buffer, and nothing else happens.
pub proof fn law_go_ahead_is_a_prompt(buffer: OutputBufferView)
    ensures
        ({
            let done = handled(buffer, seq![TelnetEventView::Iac(249u8)]);
            &&& done.sent == seq![EventView::Prompt(done.buffer.prompt)]
            &&& done.buffer.buffer == Seq::<u8>::empty()
            &&& valid_utf8(buffer.buffer) ==> done.buffer.prompt == decode_utf8(buffer.buffer)
            &&& !valid_utf8(buffer.buffer) ==> done.buffer.prompt == utf8_lossy(buffer.buffer)
        }),
{
    lemma_one_event(buffer, TelnetEventView::Iac(249u8));
    law_prompt_is_the_unfinished_line(buffer);
}

/// Data for the server is sent there as it is, and the buffer stays.
pub proof fn law_replies_are_sent(buffer: OutputBufferView, data: Seq<u8>)
    requires
        data.len() > 0,
    ensures
        ({
            let done = handled(buffer, seq![TelnetEventView::DataSend(data)]);
            &&& done.sent == seq![EventView::ServerSend(data)]
            &&& done.buffer == buffer
        }),
{
    lemma_one_event(buffer, TelnetEventView::DataSend(data));
}

/// Whatever is neither data nor a go-ahead, and data that is empty, does nothing.
pub proof fn law_the_rest_is_ignored(buffer: OutputBufferView, event: TelnetEventView)
    requires
        match event {
            TelnetEventView::Iac(command) => command != 249u8,
            TelnetEventView::DataSend(data) => data.len() == 0,
            TelnetEventView::DataReceive(data) => data.len() == 0,
            TelnetEventView::Negotiation(_, _) => true,
            TelnetEventView::Subnegotiation(_, _) => true,
            TelnetEventView::DecompressImmediate(_) => true,
        },
    ensures
        handled(buffer, seq![event]).sent == Seq::<EventView>::empty(),
        handled(buffer, seq![event]).buffer == buffer,
        silent(event),
{
    lemma_one_event(buffer, event);
}

/// An event is silent exactly if nothing is sent for it, and for any other event one
/// message is.
pub proof fn law_one_message_for_an_event(buffer: OutputBufferView, event: TelnetEventView)
    ensures
        silent(event) ==> handled(buffer, seq![event]).sent.len() == 0,
        !silent(event) ==> handled(buffer, seq![event]).sent.len() == 1,
{
    lemma_one_event(buffer, event);
}

/// Where everything has been taken, what has been sent is what was sent before and what
/// the events come to, in order; where not, handling went well up to some event whose
/// message was handed back.
pub proof fn law_handling_is_told_in_full(
    before: TelnetHandlerView,
    events: Seq<TelnetEventView>,
    after: TelnetHandlerView,
    res: Result<(), Fault>,
)
    requires
        handling_result(before, events, after, res),
    ensures
        after.channel == before.channel,
        res is Ok ==> {
            &&& after.outbox.sent == before.outbox.sent + handled(before.buffer, events).sent
            &&& after.outbox.refused == before.outbox.refused
            &&& after.buffer == handled(before.buffer, events).buffer
        },
        res matches Err(fault) ==> {
            &&& fault@ == FaultView::Closed
            &&& exists|n: int|
                {
                    let done = #[trigger] handled(before.buffer, events.take(n));
                    &&& 0 < n <= events.len()
                    &&& after.outbox.sent == before.outbox.sent + done.sent.drop_last()
                    &&& after.outbox.refused == before.outbox.refused.push(done.sent.last())
                    &&& done.sent.len() > 0
                    &&& after.buffer == done.buffer
                }
        },
{
    if res is Err {
        let n = choose|n: int| #[trigger]
            stopped_at(before.buffer, before.outbox, events, n, after);
        let taken = events.take(n);
        let done = handled(before.buffer, taken);
        assert(taken.last() == events[n - 1]);
        let front = handled(before.buffer, taken.drop_last());
        law_one_message_for_an_event(front.buffer, taken.last());
        lemma_one_event(front.buffer, taken.last());
        assert(done.sent.len() > 0);
    }
}

/// What a telnet event says is what the parser found, all of it.
pub proof fn law_telnet_events_say_what_they_hold(events: Seq<TelnetEvent>)
    ensures
        telnet_views(events).len() == events.len(),
        forall|i: int|
            0 <= i < events.len() ==> #[trigger] telnet_views(events)[i] == match events[i] {
                TelnetEvent::Iac(command) => TelnetEventView::Iac(command),
                TelnetEvent::Negotiation(command, option) => TelnetEventView::Negotiation(
                    command,
                    option,
                ),
                TelnetEvent::Subnegotiation(option, data) => TelnetEventView::Subnegotiation(
                    option,
                    data@,
                ),
                TelnetEvent::DataReceive(data) => TelnetEventView::DataReceive(data@),
                TelnetEvent::DataSend(data) => TelnetEventView::DataSend(data@),
                TelnetEvent::DecompressImmediate(data) => TelnetEventView::DecompressImmediate(
                    data@,
                ),
            },
{
}

/// A parser can serve a connection exactly if it does not support option 255 on this
/// side, and a handler is in order if besides no whole line waits in its buffer.
pub proof fn law_option_255_cannot_be_served(session: Session, handler: TelnetHandlerView)
    ensures
        session.serviceable() <==> !parser_options(session.telnet_parser)[255u8].local,
        handler.serviceable() <==> !handler.options[255u8].local,
        handler.wf() <==> handler.serviceable() && !handler.buffer.buffer.contains(10u8),
{
}

/// The parser sees every byte, the kept ones first, and knows how it treats the options.
pub proof fn law_parser_sees_every_byte(handler: TelnetHandlerView, data: Seq<u8>)
    ensures
        handler.step(data) == telnet_receive(handler.options, handler.pending + data),
{
}

/// Bytes are plain if none of them opens a command, and a go-ahead behind plain bytes is
/// seen. Plain bytes are one piece of data.
pub proof fn law_plain_bytes_are_data(bytes: Seq<u8>)
    ensures
        plain_data(bytes) <==> forall|i: int| 0 <= i < bytes.len() ==> bytes[i] != 255u8,
        plain_data(bytes) <==> data_and_go_ahead(bytes + seq![255u8, 249u8]),
        bytes.len() > 0 ==> data_event(bytes) == seq![TelnetEventView::DataReceive(bytes)],
        bytes.len() == 0 ==> data_event(bytes) == Seq::<TelnetEventView>::empty(),
{
    assert((bytes + seq![255u8, 249u8]).take(bytes.len() as int) =~= bytes);
    if plain_data(bytes) {
        assert forall|i: int| 0 <= i < bytes.len() implies bytes[i] != 255u8 by {
            assert(bytes.contains(bytes[i]));
        }
    }
}

/// Handling keeps the output buffer free of whole lines.
proof fn lemma_handled_one_wf(buffer: OutputBufferView, event: TelnetEventView)
    requires
        buffer.wf(),
    ensures
        handled_one(buffer, event).buffer.wf(),
{
    if let TelnetEventView::DataReceive(data) = event {
        lemma_received_wf(buffer, data);
    }
}

/// A connection to a server.
pub struct Session {
    /// Understands the telnet protocol.
    pub telnet_parser: Parser,
    /// Takes events to the main thread.
    pub main_thread_writer: Sender<Event>,
}

impl Session {
    /// Whether a [`TelnetHandler`] can serve the session.
    pub open spec fn serviceable(self) -> bool {
        !parser_options(self.telnet_parser)[EXOPL].local
    }

    /// Tells whether a [`TelnetHandler`] can serve the session: its parser must
    /// not support option 255, whose code the parser cannot tell from the start
    /// of a command.
    pub fn is_serviceable(&self) -> (res: bool)
        ensures
            res == self.serviceable(),
    {
        !option_state(&self.telnet_parser, EXOPL).local
    }
}

/// Turns what a server sends into events.
pub struct TelnetHandler {
    parser: Parser,
    main_thread_writer: Sender<Event>,
    output_buffer: OutputBuffer,
}

pub ghost struct TelnetHandlerView {
    /// How the parser treats each option.
    pub options: Map<u8, OptionState>,
    /// The bytes of a command that is not complete.
    pub pending: Seq<u8>,
    /// The line that is not complete, and the prompt.
    pub buffer: OutputBufferView,
    /// The events offered to the channel so far.
    pub outbox: Outbox,
    /// The channel that they are sent to.
    pub channel: int,
}

impl View for TelnetHandler {
    type V = TelnetHandlerView;

    closed spec fn view(&self) -> TelnetHandlerView {
        TelnetHandlerView {
            options: parser_options(self.parser),
            pending: parser_pending(self.parser),
            buffer: self.output_buffer@,
            outbox: outbox(self.main_thread_writer),
            channel: event_channel(self.main_thread_writer),
        }
    }
}

impl TelnetHandlerView {
    /// The parser can serve the connection.
    pub open spec fn serviceable(self) -> bool {
        !self.options[EXOPL].local
    }

    pub open spec fn wf(self) -> bool {
        &&& self.serviceable()
        &&& self.buffer.wf()
    }

    /// What the parser makes of `data`.
    pub open spec fn step(self, data: Seq<u8>) -> TelnetStep {
        telnet_receive(self.options, self.pending + data)
    }
}

impl TelnetHandler {
    pub fn new(session: Session) -> (res: TelnetHandler)
        ensures
            res@.buffer.wf(),
            res@.serviceable() == session.serviceable(),
            res@.options == parser_options(session.telnet_parser),
            res@.pending == parser_pending(session.telnet_parser),
            res@.outbox == outbox(session.main_thread_writer),
            res@.channel == event_channel(session.main_thread_writer),
            res@.buffer.buffer == Seq::<u8>::empty(),
            res@.buffer.prompt == Seq::<char>::empty(),
    {
        TelnetHandler {
            parser: session.telnet_parser,
            main_thread_writer: session.main_thread_writer,
            output_buffer: OutputBuffer::new(),
        }
    }

    /// Lends the parser, for what else the client says to the server. Whoever borrows
    /// it may change how it treats the options; nothing but the parser changes.
    pub fn parser(&mut self) -> (parser: &mut Parser)
        ensures
            parser_options(*parser) == old(self)@.options,
            parser_pending(*parser) == old(self)@.pending,
            final(self)@ == (TelnetHandlerView {
                options: parser_options(*final(parser)),
                pending: parser_pending(*final(parser)),
                ..old(self)@
            }),
    {
        &mut self.parser
    }

    /// Tells whether the parser can serve the connection: it must not support option
    /// 255, and may have come to do so while it was lent.
    pub fn is_serviceable(&self) -> (res: bool)
        ensures
            res == self@.serviceable(),
    {
        !option_state(&self.parser, EXOPL).local
    }

    /// Parses bytes that the server has sent, and sends the events that come of
    /// them to the main thread.
    pub fn parse(&mut self, data: &[u8]) -> (res: Result<(), Fault>)
        requires
            old(self)@.wf(),
        ensures
            final(self)@.wf(),
            final(self)@.options == old(self)@.step(data@).options,
            final(self)@.pending == old(self)@.step(data@).pending,
            handling_result(old(self)@, old(self)@.step(data@).events, final(self)@, res),
            old(self)@.step(data@) == telnet_receive(
                old(self)@.options,
                old(self)@.pending + data@,
            ),
            plain_data(old(self)@.pending + data@) ==> {
                &&& old(self)@.step(data@).events == data_event(old(self)@.pending + data@)
                &&& final(self)@.pending == Seq::<u8>::empty()
                &&& final(self)@.options == old(self)@.options
            },
            data_and_go_ahead(old(self)@.pending + data@) ==> {
                let bytes = old(self)@.pending + data@;
                &&& old(self)@.step(data@).events == data_event(bytes.take(bytes.len() - 2)).push(
                    TelnetEventView::Iac(GA),
                )
                &&& final(self)@.pending == Seq::<u8>::empty()
                &&& final(self)@.options == old(self)@.options
            },
    {
        let events = receive(&mut self.parser, data);
        let ghost between = self@;
        let ghost found = telnet_views(events@);
        let res = self.handle_events(events);
        proof {
            if res is Err {
                let n = choose|n: int| #[trigger]
                    stopped_at(between.buffer, between.outbox, found, n, self@);
                assert(stopped_at(old(self)@.buffer, old(self)@.outbox, found, n, self@));
            }
        }
        res
    }

    /// Handles telnet events in order, and sends what comes of them to the main
    /// thread.
    pub fn handle_events(&mut self, events: Vec<TelnetEvent>) -> (res: Result<(), Fault>)
        requires
            old(self)@.buffer.wf(),
        ensures
            final(self)@.buffer.wf(),
            final(self)@.options == old(self)@.options,
            final(self)@.pending == old(self)@.pending,
            handling_result(old(self)@, telnet_views(events@), final(self)@, res),
    {
        let ghost start = self@;
        let ghost views = telnet_views(events@);
        assert(views.take(0) =~= Seq::empty());
        assert(start.outbox.accepting(Seq::empty()) =~= start.outbox);
        for event in it: events
            invariant
                it.seq() == events@,
                views == telnet_views(events@),
                start == old(self)@,
                self@.buffer.wf(),
                self@.options == start.options,
                self@.pending == start.pending,
                self@.channel == start.channel,
                self@.buffer == handled(start.buffer, views.take(it.index())).buffer,
                self@.outbox == start.outbox.accepting(
                    handled(start.buffer, views.take(it.index())).sent,
                ),
        {
            let ghost at = it.index();
            let ghost before = handled(start.buffer, views.take(at));
            let ghost one = handled_one(before.buffer, views[at]);
            proof {
                assert(event@ == views[at]);
                assert(views.take(at + 1).drop_last() =~= views.take(at));
                lemma_handled_one_wf(before.buffer, views[at]);
                assert(start.outbox.accepting(handled(start.buffer, views.take(at + 1)).sent)
                    =~= self@.outbox.accepting(one.sent));
                assert(self@.outbox.accepting(Seq::empty()) =~= self@.outbox);
            }
            let message: Option<Event> = match event {
                TelnetEvent::Iac(command) => {
                    if command == GA {
                        self.output_buffer.buffer_to_prompt();
                        Some(Event::Prompt(self.output_buffer.prompt().to_string()))
                    } else {
                        None
                    }
                },
                TelnetEvent::DataSend(data) => {
                    if data.len() > 0 {
                        Some(Event::ServerSend(data))
                    } else {
                        None
                    }
                },
                TelnetEvent::DataReceive(data) => {
                    if data.len() > 0 {
                        let lines = self.output_buffer.receive(data.as_slice());
                        Some(Event::Output(join(&lines, "\r\n")))
                    } else {
                        None
                    }
                },
                _ => None,
            };
            if let Some(message) = message {
                assert(one.sent == seq![message@]);
                if !send(&mut self.main_thread_writer, message) {
                    proof {
                        assert(views.take(at + 1).last() == views[at]);
                        assert((before.sent + one.sent).drop_last() =~= before.sent);
                        assert(stopped_at(start.buffer, start.outbox, views, at + 1, self@));
                    }
                    return Err(Fault::Closed);
                }
                assert(self@.outbox =~= start.outbox.accepting(
                    handled(start.buffer, views.take(at + 1)).sent,
                ));
            }
        }
        assert(views.take(views.len() as int) =~= views);
        Ok(())
    }
}

/// The first `n` events have been handled, but the channel did not take what comes
/// of the last of them.
pub open spec fn stopped_at(
    buffer: OutputBufferView,
    offered: Outbox,
    events: Seq<TelnetEventView>,
    n: int,
    after: TelnetHandlerView,
) -> bool {
    let done = handled(buffer, events.take(n));
    &&& 0 < n <= events.len()
    &&& !silent(events[n - 1])
    &&& after.buffer == done.buffer
    &&& after.outbox == offered.accepting(done.sent.drop_last()).refusing(done.sent.last())
}

/// `res` is what came of handling `events`: either the channel took everything, or
/// it is closed and handling has stopped at the first event that it took nothing
/// of.
pub open spec fn handling_result(
    before: TelnetHandlerView,
    events: Seq<TelnetEventView>,
    after: TelnetHandlerView,
    res: Result<(), Fault>,
) -> bool {
    &&& after.channel == before.channel
    &&& match res {
        Ok(()) => {
            let done = handled(before.buffer, events);
            &&& after.buffer == done.buffer
            &&& after.outbox == before.outbox.accepting(done.sent)
        },
        Err(fault) => {
            &&& fault is Closed
            &&& exists|n: int| #[trigger]
                stopped_at(before.buffer, before.outbox, events, n, after)
        },
    }
}

} // verus!
