//! The object through which scripts talk to the client.

use super::callbacks::{
    add_alias_functions, add_connection_functions, add_table_functions, add_trigger_functions,
};
use super::matcher::{Alias, Trigger};
use crate::event::{
    another_handle, event_channel, outbox, send, Connection, Event, EventView, Outbox,
};
use crate::line::{line_of, Line, LineView};
use crate::text::{decoded, join, joined, law_joined_of_concatenation, law_joined_of_one, texts};
use crate::{PROJECT_NAME, VERSION};
use rlua::{Error, UserData, UserDataMethods, Variadic};
use std::sync::mpsc::Sender;
use vstd::prelude::*;
use vstd::utf8::encode_utf8;

verus! {

/// Something that a script wants the user interface to do.
#[derive(Debug, PartialEq, Eq)]
pub struct UiEvent {
    pub command: String,
}

impl Clone for UiEvent {
    fn clone(&self) -> (copy: UiEvent)
        ensures
            copy@ == self@,
    {
        UiEvent { command: self.command.clone() }
    }
}

impl View for UiEvent {
    type V = Seq<char>;

    open spec fn view(&self) -> Seq<char> {
        self.command@
    }
}

/// What the scripts have asked of the client and not been given yet, and what
/// they may know of it.
pub struct BlightMud {
    main_writer: Sender<Event>,
    output_lines: Vec<Line>,
    ui_events: Vec<UiEvent>,
    screen_width: u16,
    screen_height: u16,
}

/// What a script would see of the object, and what it has said.
pub ghost struct BlightView {
    /// The lines to show.
    pub output_lines: Seq<LineView>,
    /// What the user interface is to do.
    pub ui_events: Seq<Seq<char>>,
    /// The width and the height of the screen.
    pub screen_dimensions: (u16, u16),
    /// The channel that events are sent to.
    pub channel: int,
    /// The events offered to it through this object.
    pub outbox: Outbox,
}

impl BlightView {
    /// What a copy of the object holds: the same, but nothing has been offered to the
    /// channel through it.
    pub open spec fn copied(self) -> BlightView {
        BlightView { outbox: Outbox::fresh(), ..self }
    }
}

/// What a script is told whose event nobody takes.
pub const NOBODY_LISTENS: &'static str = "the client takes no more events";

/// What a script is told of an event that the channel has accepted or not.
pub fn delivery(accepted: bool) -> (res: Result<(), String>)
    ensures
        match res {
            Ok(()) => accepted,
            Err(message) => !accepted && message@ == NOBODY_LISTENS@,
        },
{
    if accepted {
        Ok(())
    } else {
        Err(NOBODY_LISTENS.to_string())
    }
}

/// What each line holds.
pub open spec fn line_views(lines: Seq<Line>) -> Seq<LineView> {
    lines.map_values(|line: Line| line@)
}

/// What each event says.
pub open spec fn ui_views(events: Seq<UiEvent>) -> Seq<Seq<char>> {
    events.map_values(|event: UiEvent| event@)
}

/// What is said of lines and of what the user interface is to do is said of each, in
/// order.
pub proof fn law_views_are_of_each(lines: Seq<Line>, events: Seq<UiEvent>)
    ensures
        line_views(lines).len() == lines.len(),
        forall|i: int| 0 <= i < lines.len() ==> #[trigger] line_views(lines)[i] == lines[i]@,
        ui_views(events).len() == events.len(),
        forall|i: int|
            0 <= i < events.len() ==> #[trigger] ui_views(events)[i] == events[i].command@,
{
}

/// The line that a script has shown: its texts with a blank between each two of them.
pub open spec fn shown(parts: Seq<Seq<char>>) -> LineView {
    let text = joined(parts, " "@);
    line_of(encode_utf8(text), text)
}

/// One text is shown as it is, and two lists of texts together as each of them with a
/// blank in between: no text is left out.
pub proof fn law_every_text_is_shown(a: Seq<Seq<char>>, b: Seq<Seq<char>>, text: Seq<char>)
    requires
        a.len() > 0,
        b.len() > 0,
    ensures
        shown(seq![text]).line == text,
        shown(a + b).line == shown(a).line + " "@ + shown(b).line,
        shown(a).content == encode_utf8(shown(a).line),
{
    law_joined_of_one(text, " "@);
    law_joined_of_concatenation(a, b, " "@);
}

/// A copy of the object holds what the object holds, but nothing has been offered to the
/// channel through it.
pub proof fn law_copies_are_alike(blight: BlightView)
    ensures
        blight.copied().output_lines == blight.output_lines,
        blight.copied().ui_events == blight.ui_events,
        blight.copied().screen_dimensions == blight.screen_dimensions,
        blight.copied().channel == blight.channel,
        blight.copied().outbox.sent == Seq::<EventView>::empty(),
        blight.copied().outbox.refused == Seq::<EventView>::empty(),
{
}

/// A script that has something sent is told that all is well exactly if the channel has
/// accepted the event, which is then the last one sent. Otherwise the event is the last
/// one handed back. The object stays as it is.
pub proof fn law_events_are_offered(
    before: BlightView,
    event: EventView,
    after: BlightView,
    res: Result<(), String>,
)
    requires
        BlightMud::emitted(before, event, after, res),
    ensures
        res is Ok ==> {
            &&& after.outbox.sent == before.outbox.sent.push(event)
            &&& after.outbox.refused == before.outbox.refused
        },
        res is Err ==> {
            &&& after.outbox.sent == before.outbox.sent
            &&& after.outbox.refused == before.outbox.refused.push(event)
        },
        after.output_lines == before.output_lines,
        after.ui_events == before.ui_events,
        after.screen_dimensions == before.screen_dimensions,
        after.channel == before.channel,
{
    if res is Ok {
        assert(after.outbox.sent =~= before.outbox.sent.push(event));
    }
}

impl View for BlightMud {
    type V = BlightView;

    closed spec fn view(&self) -> BlightView {
        BlightView {
            output_lines: line_views(self.output_lines@),
            ui_events: ui_views(self.ui_events@),
            screen_dimensions: (self.screen_width, self.screen_height),
            channel: event_channel(self.main_writer),
            outbox: outbox(self.main_writer),
        }
    }
}

impl Clone for BlightMud {
    fn clone(&self) -> (copy: BlightMud)
        ensures
            copy@ == self@.copied(),
    {
        let output_lines = self.output_lines.clone();
        let ui_events = self.ui_events.clone();
        let copy = BlightMud {
            main_writer: another_handle(&self.main_writer),
            output_lines,
            ui_events,
            screen_width: self.screen_width,
            screen_height: self.screen_height,
        };
        assert(copy@.output_lines =~= self@.output_lines);
        assert(copy@.ui_events =~= self@.ui_events);
        copy
    }
}

impl BlightMud {
    pub fn new(main_writer: Sender<Event>) -> (res: BlightMud)
        ensures
            res@ == (BlightView {
                output_lines: Seq::empty(),
                ui_events: Seq::empty(),
                screen_dimensions: (0, 0),
                channel: event_channel(main_writer),
                outbox: outbox(main_writer),
            }),
    {
        let res = BlightMud {
            main_writer,
            output_lines: Vec::new(),
            ui_events: Vec::new(),
            screen_width: 0,
            screen_height: 0,
        };
        assert(res@.output_lines =~= Seq::empty());
        assert(res@.ui_events =~= Seq::empty());
        res
    }

    /// Tells scripts how large the screen is.
    pub fn set_screen_dimensions(&mut self, dimensions: (u16, u16))
        ensures
            final(self)@ == (BlightView { screen_dimensions: dimensions, ..old(self)@ }),
    {
        self.screen_width = dimensions.0;
        self.screen_height = dimensions.1;
    }

    /// The width and the height of the screen.
    pub fn terminal_dimensions(&self) -> (dimensions: (u16, u16))
        ensures
            dimensions == self@.screen_dimensions,
    {
        (self.screen_width, self.screen_height)
    }

    /// The name and the version of the client.
    pub fn version(&self) -> (res: (String, String))
        ensures
            res.0@ == PROJECT_NAME@,
            res.1@ == VERSION@,
    {
        (PROJECT_NAME.to_string(), VERSION.to_string())
    }

    /// Hands out the lines to show, once.
    pub fn get_output_lines(&mut self) -> (lines: Vec<Line>)
        ensures
            line_views(lines@) == old(self)@.output_lines,
            final(self)@ == (BlightView { output_lines: Seq::empty(), ..old(self)@ }),
    {
        let mut lines: Vec<Line> = Vec::new();
        std::mem::swap(&mut lines, &mut self.output_lines);
        assert(self@.output_lines =~= Seq::empty());
        lines
    }

    /// Hands out what the user interface is to do, once.
    pub fn get_ui_events(&mut self) -> (events: Vec<UiEvent>)
        ensures
            ui_views(events@) == old(self)@.ui_events,
            final(self)@ == (BlightView { ui_events: Seq::empty(), ..old(self)@ }),
    {
        let mut events: Vec<UiEvent> = Vec::new();
        std::mem::swap(&mut events, &mut self.ui_events);
        assert(self@.ui_events =~= Seq::empty());
        events
    }

    /// Has a line shown: the texts with a blank between each two of them.
    pub fn output(&mut self, parts: Vec<String>)
        ensures
            ({
                let text = joined(texts(parts@), " "@);
                final(self)@ == BlightView {
                    output_lines: old(self)@.output_lines.push(line_of(encode_utf8(text), text)),
                    ..old(self)@
                }
            }),
            final(self)@.output_lines.last() == shown(texts(parts@)),
    {
        let line = Line::from(join(&parts, " "));
        self.output_lines.push(line);
        assert(self@.output_lines =~= old(self)@.output_lines.push(line@));
    }

    /// Has the user interface do something.
    pub fn ui(&mut self, command: String)
        ensures
            final(self)@ == (BlightView {
                ui_events: old(self)@.ui_events.push(command@),
                ..old(self)@
            }),
    {
        self.ui_events.push(UiEvent { command });
        assert(self@.ui_events =~= old(self)@.ui_events.push(command@));
    }

    /// `event` has been offered to the channel, and `res` is what came of it: the
    /// channel has accepted the event, or has handed it back and the script is told
    /// so.
    pub open spec fn emitted(
        before: BlightView,
        event: EventView,
        after: BlightView,
        res: Result<(), String>,
    ) -> bool {
        match res {
            Ok(()) => after == (BlightView {
                outbox: before.outbox.accepting(seq![event]),
                ..before
            }),
            Err(message) => {
                &&& after == (BlightView { outbox: before.outbox.refusing(event), ..before })
                &&& message@ == NOBODY_LISTENS@
            },
        }
    }

    fn emit(&mut self, event: Event) -> (res: Result<(), String>)
        ensures
            BlightMud::emitted(old(self)@, event@, final(self)@, res),
    {
        let accepted = send(&mut self.main_writer, event);
        assert(accepted ==> self@.outbox =~= old(self)@.outbox.accepting(seq![event@]));
        assert(!accepted ==> self@.outbox =~= old(self)@.outbox.refusing(event@));
        delivery(accepted)
    }

    /// Asks for a connection to a server.
    pub fn connect(&mut self, host: String, port: u16) -> (res: Result<(), String>)
        ensures
            BlightMud::emitted(old(self)@, EventView::Connect(host@, port), final(self)@, res),
    {
        self.emit(Event::Connect(Connection { host, port }))
    }

    /// Sends a line to the server.
    pub fn send(&mut self, message: String) -> (res: Result<(), String>)
        ensures
            BlightMud::emitted(
                old(self)@,
                EventView::ServerInput(line_of(encode_utf8(message@), message@)),
                final(self)@,
                res,
            ),
    {
        self.emit(Event::ServerInput(Line::from(message)))
    }

    /// Sends bytes to the server.
    pub fn send_bytes(&mut self, bytes: Vec<u8>) -> (res: Result<(), String>)
        ensures
            BlightMud::emitted(
                old(self)@,
                EventView::ServerInput(line_of(bytes@, decoded(bytes@))),
                final(self)@,
                res,
            ),
    {
        self.emit(Event::ServerInput(Line::from(bytes)))
    }

    /// Sends a GMCP message to the server.
    pub fn send_gmcp(&mut self, message: String) -> (res: Result<(), String>)
        ensures
            BlightMud::emitted(old(self)@, EventView::GMCPSend(message@), final(self)@, res),
    {
        self.emit(Event::GMCPSend(message))
    }

    /// Asks for the script at a path to be loaded.
    pub fn load(&mut self, path: String) -> (res: Result<(), String>)
        ensures
            BlightMud::emitted(old(self)@, EventView::LoadScript(path@), final(self)@, res),
    {
        self.emit(Event::LoadScript(path))
    }

    /// Asks for a fresh script state.
    pub fn reset(&mut self) -> (res: Result<(), String>)
        ensures
            BlightMud::emitted(old(self)@, EventView::ResetScript, final(self)@, res),
    {
        self.emit(Event::ResetScript)
    }

    /// Asks for the session to be logged under a name from now on.
    pub fn start_log(&mut self, name: String) -> (res: Result<(), String>)
        ensures
            BlightMud::emitted(old(self)@, EventView::StartLogging(name@, true), final(self)@, res),
    {
        self.emit(Event::StartLogging(name, true))
    }

    /// Asks for logging to stop.
    pub fn stop_log(&mut self) -> (res: Result<(), String>)
        ensures
            BlightMud::emitted(old(self)@, EventView::StopLogging, final(self)@, res),
    {
        self.emit(Event::StopLogging)
    }
}

/// Registers with `UserDataMethods::add_method_mut` the methods that talk to the
/// server, each under the name of the method of [`BlightMud`] that it calls.
/// Nothing is said of what Lua does with them.
#[verifier::external_body]
fn add_server_methods<'lua, M: UserDataMethods<'lua, BlightMud>>(methods: &mut M) {
    methods.add_method_mut(
        "connect",
        |_, this, (host, port)| this.connect(host, port).map_err(Error::RuntimeError),
    );
    methods.add_method_mut("send", |_, this, text| this.send(text).map_err(Error::RuntimeError));
    methods.add_method_mut(
        "send_bytes",
        |_, this, bytes| this.send_bytes(bytes).map_err(Error::RuntimeError),
    );
    methods.add_method_mut(
        "send_gmcp",
        |_, this, text| this.send_gmcp(text).map_err(Error::RuntimeError),
    );
}

/// Registers with `UserDataMethods::add_method_mut` the methods that ask something
/// of the client, each under the name of the method of [`BlightMud`] that it
/// calls. Nothing is said of what Lua does with them.
#[verifier::external_body]
fn add_client_methods<'lua, M: UserDataMethods<'lua, BlightMud>>(methods: &mut M) {
    methods.add_method_mut("load", |_, this, path| this.load(path).map_err(Error::RuntimeError));
    methods.add_method_mut("reset", |_, this, ()| this.reset().map_err(Error::RuntimeError));
    methods.add_method_mut(
        "start_log",
        |_, this, name| this.start_log(name).map_err(Error::RuntimeError),
    );
    methods.add_method_mut("stop_log", |_, this, ()| this.stop_log().map_err(Error::RuntimeError));
}

/// Registers with `UserDataMethods::add_method` and `add_method_mut` the methods
/// about the screen and the client, each under the name of the method of
/// [`BlightMud`] that it calls. Nothing is said of what Lua does with them.
#[verifier::external_body]
fn add_screen_methods<'lua, M: UserDataMethods<'lua, BlightMud>>(methods: &mut M) {
    methods.add_method_mut(
        "output",
        |_, this, parts: Variadic<String>| Ok(this.output(parts.into_iter().collect())),
    );
    methods.add_method_mut("ui", |_, this, command| Ok(this.ui(command)));
    methods.add_method("terminal_dimensions", |_, this, ()| Ok(this.terminal_dimensions()));
    methods.add_method("version", |_, this, ()| Ok(this.version()));
}

impl UserData for BlightMud {
    /// Registers every method that scripts can call. What holds the methods is a type
    /// of the interpreter's choosing, so nothing is said of what it holds afterwards.
    fn add_methods<'lua, M: UserDataMethods<'lua, BlightMud>>(methods: &mut M) {
        add_server_methods(methods);
        add_client_methods(methods);
        add_screen_methods(methods);
        add_alias_functions(methods);
        add_trigger_functions(methods);
        add_table_functions(methods);
        add_connection_functions(methods);
    }
}

/// Registers with `UserDataMethods::add_method_mut` that scripts can turn an alias
/// on and off. Nothing is said of what Lua does with it.
#[verifier::external_body]
fn add_alias_methods<'lua, M: UserDataMethods<'lua, Alias>>(methods: &mut M) {
    methods.add_method_mut("enable", |_, this, enabled| Ok(this.enable(enabled)));
}

impl UserData for Alias {
    /// Registers every method that scripts can call. What holds the methods is a type
    /// of the interpreter's choosing, so nothing is said of what it holds afterwards.
    fn add_methods<'lua, M: UserDataMethods<'lua, Alias>>(methods: &mut M) {
        add_alias_methods(methods);
    }
}

/// Registers with `UserDataMethods::add_method_mut` that scripts can turn a trigger
/// on and off. Nothing is said of what Lua does with it.
#[verifier::external_body]
fn add_trigger_methods<'lua, M: UserDataMethods<'lua, Trigger>>(methods: &mut M) {
    methods.add_method_mut("enable", |_, this, enabled| Ok(this.enable(enabled)));
}

impl UserData for Trigger {
    /// Registers every method that scripts can call. What holds the methods is a type
    /// of the interpreter's choosing, so nothing is said of what it holds afterwards.
    fn add_methods<'lua, M: UserDataMethods<'lua, Trigger>>(methods: &mut M) {
        add_trigger_methods(methods);
    }
}

} // verus!
