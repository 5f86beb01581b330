//! What the parts of the client tell its main thread.

use crate::line::{Line, LineView};
use crate::text::{
    joined, law_pieces_are_one_more, law_pieces_hold_no_separator, law_pieces_joined, occurrences,
    pieces, split, texts,
};
use std::sync::mpsc::Sender;
use vstd::prelude::*;

verus! {

/// A server to connect to.
#[derive(Clone, Debug, PartialEq, Eq)]
pub struct Connection {
    pub host: String,
    pub port: u16,
}

/// A message to the main thread.
#[derive(Clone, Debug, PartialEq, Eq)]
pub enum Event {
    /// Connect to a server.
    Connect(Connection),
    /// Send a line to the server.
    ServerInput(Line),
    /// Send bytes to the server as they are.
    ServerSend(Vec<u8>),
    /// Send a GMCP message to the server.
    GMCPSend(String),
    /// Show text.
    Output(String),
    /// Show a prompt.
    Prompt(String),
    /// Show a line of an error report.
    Error(String),
    /// Load the script at a path.
    LoadScript(String),
    /// Start over with a fresh script state.
    ResetScript,
    /// Log the session under a name. The flag tells that this was asked for.
    StartLogging(String, bool),
    /// Stop logging.
    StopLogging,
}

/// What an event says.
pub ghost enum EventView {
    Connect(Seq<char>, u16),
    ServerInput(LineView),
    ServerSend(Seq<u8>),
    GMCPSend(Seq<char>),
    Output(Seq<char>),
    Prompt(Seq<char>),
    Error(Seq<char>),
    LoadScript(Seq<char>),
    ResetScript,
    StartLogging(Seq<char>, bool),
    StopLogging,
}

impl View for Event {
    type V = EventView;

    open spec fn view(&self) -> EventView {
        match self {
            Event::Connect(connection) => EventView::Connect(connection.host@, connection.port),
            Event::ServerInput(line) => EventView::ServerInput(line@),
            Event::ServerSend(bytes) => EventView::ServerSend(bytes@),
            Event::GMCPSend(message) => EventView::GMCPSend(message@),
            Event::Output(text) => EventView::Output(text@),
            Event::Prompt(text) => EventView::Prompt(text@),
            Event::Error(text) => EventView::Error(text@),
            Event::LoadScript(path) => EventView::LoadScript(path@),
            Event::ResetScript => EventView::ResetScript,
            Event::StartLogging(name, now) => EventView::StartLogging(name@, *now),
            Event::StopLogging => EventView::StopLogging,
        }
    }
}

/// Why a request could not be carried out.
#[derive(Clone, Debug, PartialEq, Eq)]
pub enum Fault {
    /// The script state refused it, with this message.
    Script(String),
    /// Nobody receives events any more.
    Closed,
}

pub ghost enum FaultView {
    Script(Seq<char>),
    Closed,
}

impl View for Fault {
    type V = FaultView;

    open spec fn view(&self) -> FaultView {
        match self {
            Fault::Script(message) => FaultView::Script(message@),
            Fault::Closed => FaultView::Closed,
        }
    }
}

/// The sending half of a channel of the standard library.
#[verifier::external_type_specification]
#[verifier::external_body]
#[verifier::reject_recursive_types(T)]
pub struct ExSender<T>(Sender<T>);

/// The events that a channel has accepted from this handle, oldest first.
pub uninterp spec fn sent_events(writer: Sender<Event>) -> Seq<EventView>;

/// The events that a channel has handed back to this handle, oldest first.
pub uninterp spec fn refused_events(writer: Sender<Event>) -> Seq<EventView>;

/// Which channel a handle sends to.
pub uninterp spec fn event_channel(writer: Sender<Event>) -> int;

/// Wraps `Sender::send`. The channel accepts the event or, when its receiver is
/// gone, hands it back; which of the two lies with the other end of the channel.
#[verifier::external_body]
pub(crate) fn send(writer: &mut Sender<Event>, event: Event) -> (accepted: bool)
    ensures
        accepted ==> {
            &&& sent_events(*final(writer)) == sent_events(*old(writer)).push(event@)
            &&& refused_events(*final(writer)) == refused_events(*old(writer))
        },
        !accepted ==> {
            &&& sent_events(*final(writer)) == sent_events(*old(writer))
            &&& refused_events(*final(writer)) == refused_events(*old(writer)).push(event@)
        },
        event_channel(*final(writer)) == event_channel(*old(writer)),
{
    writer.send(event).is_ok()
}

/// Wraps `Sender::clone`: another handle to the same channel, through which
/// nothing has been sent or handed back yet.
#[verifier::external_body]
pub(crate) fn another_handle(writer: &Sender<Event>) -> (handle: Sender<Event>)
    ensures
        sent_events(handle) == Seq::<EventView>::empty(),
        refused_events(handle) == Seq::<EventView>::empty(),
        event_channel(handle) == event_channel(*writer),
{
    writer.clone()
}

/// What has been offered to a channel through a handle.
#[verifier::ext_equal]
pub ghost struct Outbox {
    /// The events that the channel has accepted, oldest first.
    pub sent: Seq<EventView>,
    /// The events that it has handed back, oldest first.
    pub refused: Seq<EventView>,
}

impl Outbox {
    /// Nothing has been offered.
    pub open spec fn fresh() -> Outbox {
        Outbox { sent: Seq::empty(), refused: Seq::empty() }
    }

    /// The channel has accepted `events` too.
    pub open spec fn accepting(self, events: Seq<EventView>) -> Outbox {
        Outbox { sent: self.sent + events, ..self }
    }

    /// The channel has handed `event` back.
    pub open spec fn refusing(self, event: EventView) -> Outbox {
        Outbox { refused: self.refused.push(event), ..self }
    }
}

/// What has been offered to a channel through `writer`.
pub open spec fn outbox(writer: Sender<Event>) -> Outbox {
    Outbox { sent: sent_events(writer), refused: refused_events(writer) }
}

/// The events that report an error: one for each line of its message.
pub open spec fn error_report(message: Seq<char>) -> Seq<EventView> {
    pieces(message, '\n').map_values(|line: Seq<char>| EventView::Error(line))
}

/// `events` have been offered in order, up to one that the channel handed back.
pub open spec fn cut_short(before: Outbox, events: Seq<EventView>, after: Outbox) -> bool {
    exists|n: int|
        0 <= n < events.len() && after == before.accepting(#[trigger] events.take(n)).refusing(
            events[n],
        )
}

/// An event says what it was made of, all of it and nothing else.
pub proof fn law_events_say_what_they_hold(event: Event)
    ensures
        match event {
            Event::Connect(connection) => event@ == EventView::Connect(
                connection.host@,
                connection.port,
            ),
            Event::ServerInput(line) => event@ == EventView::ServerInput(line@),
            Event::ServerSend(bytes) => event@ == EventView::ServerSend(bytes@),
            Event::GMCPSend(message) => event@ == EventView::GMCPSend(message@),
            Event::Output(text) => event@ == EventView::Output(text@),
            Event::Prompt(text) => event@ == EventView::Prompt(text@),
            Event::Error(text) => event@ == EventView::Error(text@),
            Event::LoadScript(path) => event@ == EventView::LoadScript(path@),
            Event::ResetScript => event@ == EventView::ResetScript,
            Event::StartLogging(name, now) => event@ == EventView::StartLogging(name@, now),
            Event::StopLogging => event@ == EventView::StopLogging,
        },
{
}

/// A fault says what went wrong.
pub proof fn law_faults_say_what_went_wrong(fault: Fault)
    ensures
        match fault {
            Fault::Script(message) => fault@ == FaultView::Script(message@),
            Fault::Closed => fault@ == FaultView::Closed,
        },
{
}

/// The report of an error is its whole message, line by line: put together again, the
/// lines give the message.
pub proof fn law_report_is_the_message(message: Seq<char>)
    ensures
        error_report(message).len() == occurrences(message, '\n') + 1,
        exists|lines: Seq<Seq<char>>|
            {
                &&& #[trigger] joined(lines, seq!['\n']) == message
                &&& lines.len() == error_report(message).len()
                &&& forall|i: int|
                    0 <= i < lines.len() ==> !(#[trigger] lines[i]).contains('\n')
                        && error_report(message)[i] == EventView::Error(lines[i])
            },
{
    let lines = pieces(message, '\n');
    law_pieces_are_one_more(message, '\n');
    law_pieces_hold_no_separator(message, '\n');
    law_pieces_joined(message, '\n');
    assert(joined(lines, seq!['\n']) == message);
}

/// What a channel has accepted and handed back grows by what it is offered, and keeps
/// what was there.
pub proof fn law_outbox_grows(before: Outbox, events: Seq<EventView>, event: EventView)
    ensures
        before.accepting(events).sent == before.sent + events,
        before.accepting(events).refused == before.refused,
        before.refusing(event).sent == before.sent,
        before.refusing(event).refused == before.refused.push(event),
        Outbox::fresh().sent == Seq::<EventView>::empty(),
        Outbox::fresh().refused == Seq::<EventView>::empty(),
{
}

/// What a handle has offered is what its channel has accepted and handed back.
pub proof fn law_outbox_is_what_was_offered(writer: Sender<Event>)
    ensures
        outbox(writer).sent == sent_events(writer),
        outbox(writer).refused == refused_events(writer),
{
}

/// Where events are cut short, those before some point have been accepted, that one has
/// been handed back, and those after it have not been offered.
pub proof fn law_cut_short_is_a_prefix(before: Outbox, events: Seq<EventView>, after: Outbox)
    requires
        cut_short(before, events, after),
    ensures
        ({
            let n = after.sent.len() - before.sent.len();
            &&& 0 <= n < events.len()
            &&& after.sent == before.sent + events.take(n)
            &&& after.refused == before.refused.push(events[n])
        }),
{
}

/// Sends the events in order, up to the first that the channel does not accept.
pub fn send_all(writer: &mut Sender<Event>, events: Vec<Event>) -> (accepted: bool)
    ensures
        accepted ==> outbox(*final(writer)) == outbox(*old(writer)).accepting(
            events@.map_values(|event: Event| event@),
        ),
        !accepted ==> cut_short(
            outbox(*old(writer)),
            events@.map_values(|event: Event| event@),
            outbox(*final(writer)),
        ),
        event_channel(*final(writer)) == event_channel(*old(writer)),
{
    let ghost views = events@.map_values(|event: Event| event@);
    let ghost before = outbox(*writer);
    assert(before.accepting(views.take(0)) =~= before);
    for event in it: events
        invariant
            it.seq() == events@,
            views == events@.map_values(|event: Event| event@),
            before == outbox(*old(writer)),
            event_channel(*writer) == event_channel(*old(writer)),
            outbox(*writer) == before.accepting(views.take(it.index())),
    {
        let ghost at = it.index();
        assert(event@ == views[at]);
        if !send(writer, event) {
            assert(outbox(*writer) =~= before.accepting(views.take(at)).refusing(views[at]));
            return false;
        }
        assert(outbox(*writer) =~= before.accepting(views.take(at + 1)));
    }
    assert(views.take(views.len() as int) =~= views);
    true
}

/// Reports an error of a script, line by line.
pub fn output_stack_trace(writer: &mut Sender<Event>, message: &str) -> (accepted: bool)
    ensures
        accepted ==> outbox(*final(writer)) == outbox(*old(writer)).accepting(
            error_report(message@),
        ),
        !accepted ==> cut_short(
            outbox(*old(writer)),
            error_report(message@),
            outbox(*final(writer)),
        ),
        event_channel(*final(writer)) == event_channel(*old(writer)),
{
    let lines = split(message, '\n');
    let ghost parts = lines@;
    let mut events: Vec<Event> = Vec::new();
    for line in it: lines
        invariant
            it.seq() == parts,
            events.len() == it.index(),
            forall|k: int| 0 <= k < events.len() ==> (#[trigger] events@[k])@ == EventView::Error(
                parts[k]@,
            ),
    {
        events.push(Event::Error(line));
    }
    assert(texts(parts).len() == parts.len());
    assert(events@.map_values(|event: Event| event@) =~= error_report(message@)) by {
        assert forall|k: int| 0 <= k < events.len() implies (#[trigger] events@[k])@
            == error_report(message@)[k] by {
            assert(texts(parts)[k] == parts[k]@);
        }
    }
    send_all(writer, events)
}

} // verus!
