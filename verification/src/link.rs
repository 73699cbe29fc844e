//! The link to the device: what to do with the port, step by step.
//!
//! The link does not touch the port itself. It is told what happened and answers with what is
//! to be done next; whoever holds the port does it and tells the link how it went.
use crate::frame::{build_frame, frame_of, payload_of, TwoU32, FRAME_LEN};
use crate::message::{FromSerial, ReportView, RequestView, ToSerial};
use crate::stream::{extract_frames, frames_in, law_pending_is_short, pending};
use crate::text::{decimal, decimal_of, joined};
use vstd::prelude::*;
use vstd::string::*;

verus! {

/// How long reading from the port waits for bytes, in milliseconds.
pub const READ_TIMEOUT_MS: u64 = 20;

/// How many bytes are read from the port at once.
pub const READ_SIZE: usize = 256;

/// How long the link rests while no port is open, in milliseconds.
pub const CLOSED_REST_MS: u64 = 20;

/// How long the link rests between two turns, in milliseconds.
pub const TURN_REST_MS: u64 = 1;

/// More bytes than this are not kept.
pub const BUFFER_LIMIT: usize = 65536;

/// What happened.
#[derive(Debug)]
pub enum LinkEvent {
    /// The panel asks for something.
    Request(ToSerial),
    /// Opening the port ended, with an error or without.
    Opened { port: String, baud: u32, error: Option<String> },
    /// Writing a frame ended, with an error or without.
    Written { error: Option<String> },
    /// Flushing what was written ended, with an error or without.
    Flushed { error: Option<String> },
    /// These bytes were read.
    Received(Vec<u8>),
    /// Nothing came in time.
    TimedOut,
    /// Reading failed.
    ReadFailed(String),
    /// The panel asks for nothing more at present.
    Idle,
}

/// What is to be done.
#[derive(Debug)]
pub enum LinkAction {
    /// Open the port of this name; once it is open, it takes the place of the one before.
    OpenPort { port: String, baud: u32, timeout_ms: u64 },
    /// Close the port, if one is open.
    ClosePort,
    /// Write these bytes to the port.
    Write([u8; FRAME_LEN]),
    /// Flush what was written.
    Flush,
    /// Read up to so many bytes from the port.
    Read { size: usize },
    /// Wait so many milliseconds.
    Rest(u64),
    /// Tell the panel.
    Report(FromSerial),
}

/// What happened, as the contracts speak of it.
pub enum EventView {
    Request(RequestView),
    Opened { port: Seq<char>, baud: u32, error: Option<Seq<char>> },
    Written { error: Option<Seq<char>> },
    Flushed { error: Option<Seq<char>> },
    Received(Seq<u8>),
    TimedOut,
    ReadFailed(Seq<char>),
    Idle,
}

/// What is to be done, as the contracts speak of it.
pub enum ActionView {
    OpenPort { port: Seq<char>, baud: u32, timeout_ms: u64 },
    ClosePort,
    Write(Seq<u8>),
    Flush,
    Read { size: usize },
    Rest(u64),
    Report(ReportView),
}

/// The text of an error, if there is one.
pub open spec fn error_view(error: Option<String>) -> Option<Seq<char>> {
    match error {
        Some(text) => Some(text@),
        None => None,
    }
}

impl View for LinkEvent {
    type V = EventView;

    open spec fn view(&self) -> EventView {
        match *self {
            LinkEvent::Request(request) => EventView::Request(request@),
            LinkEvent::Opened { port, baud, error } => EventView::Opened {
                port: port@,
                baud,
                error: error_view(error),
            },
            LinkEvent::Written { error } => EventView::Written { error: error_view(error) },
            LinkEvent::Flushed { error } => EventView::Flushed { error: error_view(error) },
            LinkEvent::Received(bytes) => EventView::Received(bytes@),
            LinkEvent::TimedOut => EventView::TimedOut,
            LinkEvent::ReadFailed(error) => EventView::ReadFailed(error@),
            LinkEvent::Idle => EventView::Idle,
        }
    }
}

impl View for LinkAction {
    type V = ActionView;

    open spec fn view(&self) -> ActionView {
        match *self {
            LinkAction::OpenPort { port, baud, timeout_ms } => ActionView::OpenPort {
                port: port@,
                baud,
                timeout_ms,
            },
            LinkAction::ClosePort => ActionView::ClosePort,
            LinkAction::Write(frame) => ActionView::Write(frame@),
            LinkAction::Flush => ActionView::Flush,
            LinkAction::Read { size } => ActionView::Read { size },
            LinkAction::Rest(ms) => ActionView::Rest(ms),
            LinkAction::Report(report) => ActionView::Report(report@),
        }
    }
}

/// The actions, as the contracts speak of them.
pub open spec fn action_views(actions: Seq<LinkAction>) -> Seq<ActionView> {
    actions.map_values(|action: LinkAction| action@)
}

/// What the link remembers.
#[verifier::ext_equal]
pub struct LinkState {
    /// A port is open.
    pub open: bool,
    /// Bytes received in which a frame may have begun.
    pub buffer: Seq<u8>,
}

/// The one action of reporting this status.
pub open spec fn status_report(text: Seq<char>) -> Seq<ActionView> {
    seq![ActionView::Report(ReportView::Status(text))]
}

/// The report of a failure, if there was one.
pub open spec fn failure_report(what: Seq<char>, error: Option<Seq<char>>) -> Seq<ActionView> {
    match error {
        Some(text) => status_report(what + text),
        None => Seq::empty(),
    }
}

/// The status once a port is open.
pub open spec fn opened_status(port: Seq<char>, baud: u32) -> Seq<char> {
    "Opened "@ + port + " @ "@ + decimal_of(baud as nat)
}

/// The status when a port could not be opened.
pub open spec fn open_failed_status(port: Seq<char>, error: Seq<char>) -> Seq<char> {
    "Open failed ("@ + port + "): "@ + error
}

/// The report of a pair of numbers that the device sent.
pub open spec fn pair_report(pair: TwoU32) -> ActionView {
    ActionView::Report(ReportView::RxPair { a: pair.a, b: pair.b })
}

/// The reports of the pairs of numbers that the device sent, in order.
pub open spec fn pair_reports(pairs: Seq<TwoU32>) -> Seq<ActionView> {
    pairs.map_values(|pair: TwoU32| pair_report(pair))
}

impl LinkState {
    /// The link at the start.
    pub open spec fn initial() -> LinkState {
        LinkState { open: false, buffer: Seq::empty() }
    }

    /// The buffer holds less than a frame.
    pub open spec fn wf(self) -> bool {
        self.buffer.len() < FRAME_LEN
    }

    /// What is done about a request of the panel.
    pub open spec fn on_request(self, request: RequestView) -> (LinkState, Seq<ActionView>) {
        match request {
            RequestView::Open { port, baud } => (
                self,
                seq![ActionView::OpenPort { port, baud, timeout_ms: READ_TIMEOUT_MS }],
            ),
            RequestView::Close => (
                LinkState { open: false, ..self },
                seq![ActionView::ClosePort] + status_report("Closed"@),
            ),
            RequestView::RxPair { a, b } => if self.open {
                (self, seq![ActionView::Write(frame_of(payload_of(TwoU32 { a, b })))])
            } else {
                (self, status_report("Send failed: port not open"@))
            },
        }
    }

    /// What is done about bytes that were read: the frames in them are reported, and what may
    /// be the start of another is kept, unless it is too much.
    pub open spec fn on_received(self, bytes: Seq<u8>) -> (LinkState, Seq<ActionView>) {
        let all = self.buffer + bytes;
        let kept = pending(all);
        if bytes.len() == 0 {
            (self, Seq::empty())
        } else if kept.len() > BUFFER_LIMIT {
            (
                LinkState { buffer: Seq::empty(), ..self },
                pair_reports(frames_in(all)) + status_report("RX buffer cleared (too large)"@),
            )
        } else {
            (LinkState { buffer: kept, ..self }, pair_reports(frames_in(all)))
        }
    }

    /// The next state, and what is to be done.
    pub open spec fn step(self, event: EventView) -> (LinkState, Seq<ActionView>) {
        match event {
            EventView::Request(request) => self.on_request(request),
            EventView::Opened { port, baud, error } => match error {
                None => (
                    LinkState { open: true, ..self },
                    status_report(opened_status(port, baud)),
                ),
                Some(text) => (self, status_report(open_failed_status(port, text))),
            },
            EventView::Written { error } => match error {
                None => (self, seq![ActionView::Flush]),
                Some(_) => (self, failure_report("Write failed: "@, error)),
            },
            EventView::Flushed { error } => (self, failure_report("Flush failed: "@, error)),
            EventView::Received(bytes) => self.on_received(bytes),
            EventView::TimedOut => (self, Seq::empty()),
            EventView::ReadFailed(error) => (self, status_report("Read error: "@ + error)),
            EventView::Idle => (
                self,
                if self.open {
                    seq![ActionView::Read { size: READ_SIZE }, ActionView::Rest(TURN_REST_MS)]
                } else {
                    seq![ActionView::Rest(CLOSED_REST_MS), ActionView::Rest(TURN_REST_MS)]
                },
            ),
        }
    }
}

/// The link to the device.
#[derive(Debug)]
pub struct SerialLink {
    port_open: bool,
    rx_bytes: Vec<u8>,
}

impl View for SerialLink {
    type V = LinkState;

    closed spec fn view(&self) -> LinkState {
        LinkState { open: self.port_open, buffer: self.rx_bytes@ }
    }
}

/// Nothing to be done.
fn nothing() -> (actions: Vec<LinkAction>)
    ensures
        action_views(actions@) == Seq::<ActionView>::empty(),
{
    let actions: Vec<LinkAction> = Vec::new();
    assert(action_views(actions@) =~= Seq::<ActionView>::empty());
    actions
}

/// The one action of reporting this status.
fn report_status(text: String) -> (actions: Vec<LinkAction>)
    ensures
        action_views(actions@) == status_report(text@),
{
    let mut actions: Vec<LinkAction> = Vec::new();
    actions.push(LinkAction::Report(FromSerial::Status(text)));
    assert(action_views(actions@) =~= status_report(text@));
    actions
}

/// The report of a failure, if there was one.
fn report_failure(what: &str, error: Option<String>) -> (actions: Vec<LinkAction>)
    ensures
        action_views(actions@) == failure_report(what@, error_view(error)),
{
    match error {
        Some(text) => report_status(joined(what, text.as_str())),
        None => nothing(),
    }
}

/// Empties the buffer if it holds more than is kept; says whether it did.
fn limit_buffer(rx: &mut Vec<u8>) -> (cleared: bool)
    ensures
        cleared == (old(rx)@.len() > BUFFER_LIMIT),
        final(rx)@ == if cleared {
            Seq::empty()
        } else {
            old(rx)@
        },
{
    if rx.len() > BUFFER_LIMIT {
        rx.clear();
        true
    } else {
        false
    }
}

impl SerialLink {
    /// A link with no port open.
    pub fn new() -> (link: SerialLink)
        ensures
            link@ == LinkState::initial(),
    {
        SerialLink { port_open: false, rx_bytes: Vec::with_capacity(8192) }
    }

    /// What to do about a request of the panel.
    fn on_request(&mut self, request: ToSerial) -> (actions: Vec<LinkAction>)
        ensures
            (final(self)@, action_views(actions@)) == old(self)@.on_request(request@),
    {
        let payload = request.to_payload();
        match request {
            ToSerial::Open { port, baud } => {
                let mut actions: Vec<LinkAction> = Vec::new();
                actions.push(LinkAction::OpenPort { port, baud, timeout_ms: READ_TIMEOUT_MS });
                assert(action_views(actions@) =~= old(self)@.on_request(request@).1);
                actions
            },
            ToSerial::Close => {
                self.port_open = false;
                let mut actions: Vec<LinkAction> = Vec::new();
                actions.push(LinkAction::ClosePort);
                actions.push(LinkAction::Report(FromSerial::Status("Closed".to_owned())));
                assert(action_views(actions@) =~= old(self)@.on_request(request@).1);
                actions
            },
            ToSerial::RxPair { a, b } => {
                if !self.port_open {
                    return report_status("Send failed: port not open".to_owned());
                }
                let mut actions: Vec<LinkAction> = Vec::new();
                if let Some(bytes) = payload {
                    actions.push(LinkAction::Write(build_frame(&bytes)));
                }
                assert(action_views(actions@) =~= old(self)@.on_request(request@).1);
                actions
            },
        }
    }

    /// What to do about bytes that were read.
    fn on_received(&mut self, bytes: Vec<u8>) -> (actions: Vec<LinkAction>)
        ensures
            (final(self)@, action_views(actions@)) == old(self)@.on_received(bytes@),
    {
        if bytes.len() == 0 {
            return nothing();
        }
        let mut actions: Vec<LinkAction> = nothing();
        let mut bytes = bytes;
        let ghost all = self.rx_bytes@ + bytes@;
        self.rx_bytes.append(&mut bytes);
        let pairs = extract_frames(&mut self.rx_bytes);
        let mut i: usize = 0;
        while i < pairs.len()
            invariant
                0 <= i <= pairs@.len(),
                action_views(actions@) =~= pair_reports(pairs@.take(i as int)),
            decreases pairs@.len() - i,
        {
            let pair = pairs[i];
            let ghost before = actions@;
            actions.push(LinkAction::Report(FromSerial::RxPair { a: pair.a, b: pair.b }));
            assert(action_views(actions@) =~= action_views(before).push(pair_report(pair)));
            assert(pair_reports(pairs@.take(i + 1)) =~= pair_reports(pairs@.take(i as int)).push(
                pair_report(pair),
            ));
            i = i + 1;
        }
        assert(pairs@.take(i as int) =~= pairs@);
        if limit_buffer(&mut self.rx_bytes) {
            let ghost before = actions@;
            actions.push(
                LinkAction::Report(
                    FromSerial::Status("RX buffer cleared (too large)".to_owned()),
                ),
            );
            assert(action_views(actions@) =~= action_views(before) + status_report(
                "RX buffer cleared (too large)"@,
            ));
        }
        actions
    }

    /// What to do about what happened.
    pub fn step(&mut self, event: LinkEvent) -> (actions: Vec<LinkAction>)
        ensures
            (final(self)@, action_views(actions@)) == old(self)@.step(event@),
    {
        match event {
            LinkEvent::Request(request) => self.on_request(request),
            LinkEvent::Opened { port, baud, error } => match error {
                None => {
                    self.port_open = true;
                    let mut text = joined("Opened ", port.as_str());
                    text.append(" @ ");
                    text.append(decimal(baud as u64).as_str());
                    report_status(text)
                },
                Some(reason) => {
                    let mut text = joined("Open failed (", port.as_str());
                    text.append("): ");
                    text.append(reason.as_str());
                    report_status(text)
                },
            },
            LinkEvent::Written { error } => {
                if error.is_none() {
                    let mut actions: Vec<LinkAction> = Vec::new();
                    actions.push(LinkAction::Flush);
                    assert(action_views(actions@) =~= seq![ActionView::Flush]);
                    actions
                } else {
                    report_failure("Write failed: ", error)
                }
            },
            LinkEvent::Flushed { error } => report_failure("Flush failed: ", error),
            LinkEvent::Received(bytes) => self.on_received(bytes),
            LinkEvent::TimedOut => nothing(),
            LinkEvent::ReadFailed(error) => report_status(joined("Read error: ", error.as_str())),
            LinkEvent::Idle => {
                let mut actions: Vec<LinkAction> = Vec::new();
                if self.port_open {
                    actions.push(LinkAction::Read { size: READ_SIZE });
                } else {
                    actions.push(LinkAction::Rest(CLOSED_REST_MS));
                }
                actions.push(LinkAction::Rest(TURN_REST_MS));
                assert(action_views(actions@) =~= old(self)@.step(event@).1);
                actions
            },
        }
    }
}

/// On every idle turn an open port is read, whatever is in the buffer: up to 256 bytes, then a
/// rest of one millisecond. With no port open nothing is read, and the rest is longer. The link
/// stays as it is.
pub proof fn law_open_port_is_read_on_every_turn(link: LinkState)
    ensures
        link.step(EventView::Idle).0 == link,
        link.open ==> link.step(EventView::Idle).1 == seq![
            ActionView::Read { size: 256 },
            ActionView::Rest(1),
        ],
        !link.open ==> link.step(EventView::Idle).1 == seq![
            ActionView::Rest(20),
            ActionView::Rest(1),
        ],
        !link.open ==> forall|i: int|
            0 <= i < link.step(EventView::Idle).1.len() ==> !(#[trigger] link.step(
                EventView::Idle,
            ).1[i] is Read),
{
}

/// A port is open after it was opened, and until the panel asks to close it; nothing else opens
/// or closes it, neither an error nor a port that could not be opened.
pub proof fn law_port_is_open_until_closed(link: LinkState, event: EventView)
    ensures
        match event {
            EventView::Opened { error: None, .. } => link.step(event).0.open,
            EventView::Request(RequestView::Close) => !link.step(event).0.open,
            _ => link.step(event).0.open == link.open,
        },
{
}

/// The buffer changes by received bytes only, and only on these does what is done depend on it.
pub proof fn law_buffer_counts_for_received_bytes_only(
    link: LinkState,
    buffer: Seq<u8>,
    event: EventView,
)
    requires
        !(event is Received),
    ensures
        link.step(event).0.buffer == link.buffer,
        link.step(event).1 == (LinkState { buffer, ..link }).step(event).1,
{
}

/// A request to open asks for that port, at that speed, with a time limit of 20 milliseconds.
/// The outcome is reported with the name of the port, and with the speed or the error.
pub proof fn law_opening_is_asked_for_and_reported(
    link: LinkState,
    port: Seq<char>,
    baud: u32,
    error: Seq<char>,
)
    ensures
        link.step(EventView::Request(RequestView::Open { port, baud })) == (
            link,
            seq![ActionView::OpenPort { port, baud, timeout_ms: 20 }],
        ),
        link.step(EventView::Opened { port, baud, error: None }) == (
            LinkState { open: true, ..link },
            seq![
                ActionView::Report(
                    ReportView::Status("Opened "@ + port + " @ "@ + decimal_of(baud as nat)),
                ),
            ],
        ),
        link.step(EventView::Opened { port, baud, error: Some(error) }) == (
            link,
            seq![
                ActionView::Report(ReportView::Status("Open failed ("@ + port + "): "@ + error)),
            ],
        ),
{
}

/// A request to close closes the port and reports it, whether one was open or not.
pub proof fn law_closing_closes(link: LinkState)
    ensures
        link.step(EventView::Request(RequestView::Close)) == (
            LinkState { open: false, ..link },
            seq![ActionView::ClosePort, ActionView::Report(ReportView::Status("Closed"@))],
        ),
{
    assert(link.step(EventView::Request(RequestView::Close)).1 =~= seq![
        ActionView::ClosePort,
        ActionView::Report(ReportView::Status("Closed"@)),
    ]);
}

/// To send two numbers, the frame of this pair is written to the open port, and once it is
/// written it is flushed. Without an open port nothing is written. An error is reported, and
/// the frame is not flushed if it could not be written.
pub proof fn law_pair_is_written_then_flushed(link: LinkState, a: u32, b: u32, error: Seq<char>)
    ensures
        link.open ==> link.step(EventView::Request(RequestView::RxPair { a, b })) == (
            link,
            seq![ActionView::Write(frame_of(payload_of(TwoU32 { a, b })))],
        ),
        !link.open ==> link.step(EventView::Request(RequestView::RxPair { a, b })) == (
            link,
            seq![ActionView::Report(ReportView::Status("Send failed: port not open"@))],
        ),
        link.step(EventView::Written { error: None }) == (link, seq![ActionView::Flush]),
        link.step(EventView::Written { error: Some(error) }) == (
            link,
            seq![ActionView::Report(ReportView::Status("Write failed: "@ + error))],
        ),
        link.step(EventView::Flushed { error: None }) == (link, Seq::<ActionView>::empty()),
        link.step(EventView::Flushed { error: Some(error) }) == (
            link,
            seq![ActionView::Report(ReportView::Status("Flush failed: "@ + error))],
        ),
{
}

/// A read that brings nothing in time, or no bytes, changes nothing and is not reported; one
/// that fails is reported and changes nothing.
pub proof fn law_empty_read_changes_nothing(link: LinkState, error: Seq<char>)
    ensures
        link.step(EventView::TimedOut) == (link, Seq::<ActionView>::empty()),
        link.step(EventView::Received(Seq::empty())) == (link, Seq::<ActionView>::empty()),
        link.step(EventView::ReadFailed(error)) == (
            link,
            seq![ActionView::Report(ReportView::Status("Read error: "@ + error))],
        ),
{
}

/// Received bytes go behind those that are kept. Each frame in them all is reported, in order
/// and with its two numbers, and nothing else is; what may be the start of another is kept. It
/// makes no difference whether the port still counts as open.
pub proof fn law_received_frames_are_reported(link: LinkState, bytes: Seq<u8>)
    requires
        bytes.len() > 0,
    ensures
        ({
            let all = link.buffer + bytes;
            let (next, actions) = link.step(EventView::Received(bytes));
            &&& next == (LinkState { buffer: pending(all), ..link })
            &&& actions.len() == frames_in(all).len()
            &&& forall|i: int|
                0 <= i < actions.len() ==> #[trigger] actions[i] == ActionView::Report(
                    ReportView::RxPair { a: frames_in(all)[i].a, b: frames_in(all)[i].b },
                )
        }),
{
    law_pending_is_short(link.buffer + bytes);
}

} // verus!
