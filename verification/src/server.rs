//! What the servers decide: the event loop of the LwM2M server, the listener of the echo server, and
//! the echo server's answers.
use crate::coap::{byte_strings, join_path, method_of, path_text, Method};
use crate::error::ServerError;
use crate::transport::{DatagramView, TransportMessage};
use vstd::prelude::*;
use vstd::slice::slice_to_vec;
use vstd::string::StringExecFns;
use vstd::utf8::encode_utf8;

verus! {

/// What happens to the LwM2M server.
#[derive(Debug)]
pub enum ServerEvent {
    /// A datagram came in.
    Received(TransportMessage),
    /// The transport failed to receive.
    ReceiveFailed,
    /// A request has been served.
    Answered(TransportMessage),
    /// A request could not be served.
    Failed(ServerError),
    /// The task that served a request panicked or was cancelled.
    TaskLost,
    /// An answer could not be sent.
    SendFailed,
}

/// What the LwM2M server does about it.
#[derive(Debug)]
pub enum ServerAction {
    /// Serve the request in a task of its own.
    Dispatch(TransportMessage),
    /// Send the answer.
    Send(TransportMessage),
    /// Report the error.
    ReportFailure(ServerError),
    /// Report the loss of a task.
    ReportLost,
    /// Report that an answer did not go out.
    ReportSendFailure,
    /// Go on waiting.
    Wait,
}

/// The value of a [`ServerEvent`].
#[verifier::ext_equal]
pub enum EventView {
    Received(DatagramView),
    ReceiveFailed,
    Answered(DatagramView),
    Failed(ServerError),
    TaskLost,
    SendFailed,
}

/// The value of a [`ServerAction`].
#[verifier::ext_equal]
pub enum ActionView {
    Dispatch(DatagramView),
    Send(DatagramView),
    ReportFailure(ServerError),
    ReportLost,
    ReportSendFailure,
    Wait,
}

impl View for ServerEvent {
    type V = EventView;

    open spec fn view(&self) -> EventView {
        match *self {
            ServerEvent::Received(msg) => EventView::Received(msg@),
            ServerEvent::ReceiveFailed => EventView::ReceiveFailed,
            ServerEvent::Answered(msg) => EventView::Answered(msg@),
            ServerEvent::Failed(error) => EventView::Failed(error),
            ServerEvent::TaskLost => EventView::TaskLost,
            ServerEvent::SendFailed => EventView::SendFailed,
        }
    }
}

impl View for ServerAction {
    type V = ActionView;

    open spec fn view(&self) -> ActionView {
        match *self {
            ServerAction::Dispatch(msg) => ActionView::Dispatch(msg@),
            ServerAction::Send(msg) => ActionView::Send(msg@),
            ServerAction::ReportFailure(error) => ActionView::ReportFailure(error),
            ServerAction::ReportLost => ActionView::ReportLost,
            ServerAction::ReportSendFailure => ActionView::ReportSendFailure,
            ServerAction::Wait => ActionView::Wait,
        }
    }
}

/// What an event asks for.
pub open spec fn action_for(event: EventView) -> ActionView {
    match event {
        EventView::Received(msg) => ActionView::Dispatch(msg),
        EventView::ReceiveFailed => ActionView::Wait,
        EventView::Answered(msg) => ActionView::Send(msg),
        EventView::Failed(error) => ActionView::ReportFailure(error),
        EventView::TaskLost => ActionView::ReportLost,
        EventView::SendFailed => ActionView::ReportSendFailure,
    }
}

/// The event ends a task.
pub open spec fn ends_task(event: EventView) -> bool {
    event is Answered || event is Failed || event is TaskLost
}

/// How many tasks serve a request behind an event.
pub open spec fn in_flight_after(in_flight: int, event: EventView) -> int {
    if event is Received {
        in_flight + 1
    } else if ends_task(event) {
        in_flight - 1
    } else {
        in_flight
    }
}

/// The event loop of the LwM2M server: each request is served in a task of its own, so that a
/// retransmission can meet the request that it retransmits.
#[derive(Debug)]
pub struct EventLoop {
    in_flight: u64,
}

impl EventLoop {
    /// The number of requests that are being served.
    pub closed spec fn in_flight(self) -> int {
        self.in_flight as int
    }

    /// A loop that serves nothing yet.
    pub fn new() -> (r: EventLoop)
        ensures
            r.in_flight() == 0,
    {
        EventLoop { in_flight: 0 }
    }

    /// Whether there is a task to wait for.
    pub fn awaits_tasks(&self) -> (r: bool)
        ensures
            r == (self.in_flight() > 0),
    {
        self.in_flight > 0
    }

    /// What to do about an event.
    pub fn on_event(&mut self, event: ServerEvent) -> (r: ServerAction)
        requires
            ends_task(event@) ==> old(self).in_flight() > 0,
            event@ is Received ==> old(self).in_flight() < u64::MAX,
        ensures
            r@ == action_for(event@),
            final(self).in_flight() == in_flight_after(old(self).in_flight(), event@),
    {
        match event {
            ServerEvent::Received(msg) => {
                self.in_flight = self.in_flight + 1;
                ServerAction::Dispatch(msg)
            },
            ServerEvent::ReceiveFailed => ServerAction::Wait,
            ServerEvent::Answered(msg) => {
                self.in_flight = self.in_flight - 1;
                ServerAction::Send(msg)
            },
            ServerEvent::Failed(error) => {
                self.in_flight = self.in_flight - 1;
                ServerAction::ReportFailure(error)
            },
            ServerEvent::TaskLost => {
                self.in_flight = self.in_flight - 1;
                ServerAction::ReportLost
            },
            ServerEvent::SendFailed => ServerAction::ReportSendFailure,
        }
    }
}

/// The tasks in flight behind a run of events.
pub open spec fn in_flight_over(in_flight: int, events: Seq<EventView>) -> int
    decreases events.len(),
{
    if events.len() == 0 {
        in_flight
    } else {
        in_flight_after(in_flight_over(in_flight, events.drop_last()), events.last())
    }
}

/// How many requests a run of events brought.
pub open spec fn received_in(events: Seq<EventView>) -> nat
    decreases events.len(),
{
    if events.len() == 0 {
        0
    } else {
        received_in(events.drop_last()) + (if events.last() is Received {
            1nat
        } else {
            0nat
        })
    }
}

/// How many tasks a run of events ended.
pub open spec fn ended_in(events: Seq<EventView>) -> nat
    decreases events.len(),
{
    if events.len() == 0 {
        0
    } else {
        ended_in(events.drop_last()) + (if ends_task(events.last()) {
            1nat
        } else {
            0nat
        })
    }
}

/// What is in flight is what came in and has not ended: over any run of events, no request is lost and
/// none is counted twice.
pub proof fn law_requests_are_accounted_for(events: Seq<EventView>)
    ensures
        in_flight_over(0, events) == received_in(events) - ended_in(events),
    decreases events.len(),
{
    if events.len() > 0 {
        law_requests_are_accounted_for(events.drop_last());
    }
}

/// The loop never makes up a message: what is dispatched came in, and what is sent is
/// the answer of a task.
pub proof fn law_messages_are_passed_on_unchanged(event: EventView, msg: DatagramView)
    ensures
        action_for(event) == ActionView::Dispatch(msg) <==> event == EventView::Received(msg),
        action_for(event) == ActionView::Send(msg) <==> event == EventView::Answered(msg),
{
}

/// The datagrams that a run of events brought, in order.
pub open spec fn messages_received(events: Seq<EventView>) -> Seq<DatagramView>
    decreases events.len(),
{
    if events.len() == 0 {
        Seq::empty()
    } else {
        match events.last() {
            EventView::Received(msg) => messages_received(events.drop_last()).push(msg),
            _ => messages_received(events.drop_last()),
        }
    }
}

/// The answers that a run of events brought, in order.
pub open spec fn messages_answered(events: Seq<EventView>) -> Seq<DatagramView>
    decreases events.len(),
{
    if events.len() == 0 {
        Seq::empty()
    } else {
        match events.last() {
            EventView::Answered(msg) => messages_answered(events.drop_last()).push(msg),
            _ => messages_answered(events.drop_last()),
        }
    }
}

/// The datagrams that a run of actions dispatched, in order.
pub open spec fn messages_dispatched(actions: Seq<ActionView>) -> Seq<DatagramView>
    decreases actions.len(),
{
    if actions.len() == 0 {
        Seq::empty()
    } else {
        match actions.last() {
            ActionView::Dispatch(msg) => messages_dispatched(actions.drop_last()).push(msg),
            _ => messages_dispatched(actions.drop_last()),
        }
    }
}

/// The datagrams that a run of actions sent, in order.
pub open spec fn messages_sent(actions: Seq<ActionView>) -> Seq<DatagramView>
    decreases actions.len(),
{
    if actions.len() == 0 {
        Seq::empty()
    } else {
        match actions.last() {
            ActionView::Send(msg) => messages_sent(actions.drop_last()).push(msg),
            _ => messages_sent(actions.drop_last()),
        }
    }
}

/// Over any run of events, whatever fails in it, each datagram that comes in is dispatched exactly once,
/// in the order of arrival, and each answer is sent exactly once, in the order in which the tasks end.
/// Nothing else is dispatched or sent.
pub proof fn law_every_message_is_passed_on_once(events: Seq<EventView>)
    ensures
        ({
            let actions = events.map_values(|event: EventView| action_for(event));
            &&& messages_dispatched(actions) == messages_received(events)
            &&& messages_sent(actions) == messages_answered(events)
        }),
    decreases events.len(),
{
    let actions = events.map_values(|event: EventView| action_for(event));
    if events.len() > 0 {
        law_every_message_is_passed_on_once(events.drop_last());
        assert(actions.drop_last() =~= events.drop_last().map_values(
            |event: EventView| action_for(event),
        ));
        assert(actions.last() == action_for(events.last()));
    }
}

/// The bytes that the echo server's listener reads of one datagram at most.
pub const LISTENER_BUFFER_SIZE: usize = 65535;

/// What happens to the echo server's listener. `A` is the type of an address.
#[derive(Debug)]
pub enum ListenerEvent<A> {
    /// A datagram came in from an address.
    Datagram(Vec<u8>, A),
    /// The socket failed to receive.
    ReceiveFailed,
    /// Nobody takes the requests any more.
    RequestsClosed,
    /// A response is due to an address.
    Response(Vec<u8>, A),
    /// The socket failed to send.
    SendFailed,
    /// Nobody gives responses any more.
    ResponsesClosed,
}

/// What the listener does about it.
#[derive(Debug)]
pub enum ListenerAction<A> {
    /// Hand the request over, to be answered to the address.
    HandOver(Vec<u8>, A),
    /// Send the response to the address.
    Transmit(Vec<u8>, A),
    /// Stop with the socket's own error.
    StopWithSocketError,
    /// Stop with an error of the listener's own.
    StopWithError(String),
    /// Stop.
    Stop,
}

/// What an event asks of the listener.
pub open spec fn listener_action_for<A>(event: ListenerEvent<A>, action: ListenerAction<A>) -> bool {
    match event {
        ListenerEvent::Datagram(bytes, from) => action == ListenerAction::HandOver(bytes, from),
        ListenerEvent::ReceiveFailed => action == ListenerAction::<A>::StopWithSocketError,
        ListenerEvent::RequestsClosed => action matches ListenerAction::StopWithError(text) && text@
            == "server channel error"@,
        ListenerEvent::Response(bytes, to) => action == ListenerAction::Transmit(bytes, to),
        ListenerEvent::SendFailed => action == ListenerAction::<A>::StopWithSocketError,
        ListenerEvent::ResponsesClosed => action == ListenerAction::<A>::Stop,
    }
}

/// What the listener does about an event.
pub fn on_listener_event<A>(event: ListenerEvent<A>) -> (r: ListenerAction<A>)
    ensures
        listener_action_for(event, r),
{
    match event {
        ListenerEvent::Datagram(bytes, from) => ListenerAction::HandOver(bytes, from),
        ListenerEvent::ReceiveFailed => ListenerAction::StopWithSocketError,
        ListenerEvent::RequestsClosed => {
            ListenerAction::StopWithError("server channel error".to_owned())
        },
        ListenerEvent::Response(bytes, to) => ListenerAction::Transmit(bytes, to),
        ListenerEvent::SendFailed => ListenerAction::StopWithSocketError,
        ListenerEvent::ResponsesClosed => ListenerAction::Stop,
    }
}

/// The text that the echo server answers a request with.
pub open spec fn echo_text(method: Method, path: Seq<char>) -> Seq<char> {
    if method == Method::Get {
        "OK for request on request by GET /"@ + path
    } else {
        "OK for request on request by other method"@
    }
}

/// The payload that the echo server answers a request with, given the request's code and the values of
/// its `Uri-Path` options.
pub fn echo_payload(code: u8, path: &Vec<Vec<u8>>) -> (r: Vec<u8>)
    ensures
        r@ == encode_utf8(echo_text(method_of(code), path_text(byte_strings(path@)))),
        code == 1 ==> r@ == encode_utf8(
            "OK for request on request by GET /"@ + path_text(byte_strings(path@)),
        ),
        code != 1 ==> r@ == encode_utf8("OK for request on request by other method"@),
{
    let text = if code == 1 {
        let mut text = "OK for request on request by GET /".to_owned();
        text.append(join_path(path).as_str());
        text
    } else {
        "OK for request on request by other method".to_owned()
    };
    slice_to_vec(text.as_str().as_bytes())
}

/// The echo server names a GET (code 0.01) and its path; of a message with any other code it says that it
/// used another method, whatever its path.
pub proof fn law_echo_names_only_gets(code: u8, path: Seq<char>, other: Seq<char>)
    ensures
        code == 1 ==> echo_text(method_of(code), path) == "OK for request on request by GET /"@
            + path,
        code != 1 ==> echo_text(method_of(code), path)
            == "OK for request on request by other method"@,
        code != 1 ==> echo_text(method_of(code), path) == echo_text(method_of(code), other),
        code == 1 && path != other ==> echo_text(method_of(code), path) != echo_text(
            method_of(code),
            other,
        ),
{
    if code == 1 {
        let named = "OK for request on request by GET /"@;
        assert((named + path).skip(named.len() as int) =~= path);
        assert((named + other).skip(named.len() as int) =~= other);
    }
}

/// Every error of a task is reported as it is, a lost task as lost, and an answer that did not go out as
/// that. A failed receive is passed over.
pub proof fn law_failures_are_reported(error: ServerError)
    ensures
        action_for(EventView::Failed(error)) == ActionView::ReportFailure(error),
        action_for(EventView::TaskLost) == ActionView::ReportLost,
        action_for(EventView::SendFailed) == ActionView::ReportSendFailure,
        action_for(EventView::ReceiveFailed) == ActionView::Wait,
{
}

/// A datagram that comes in starts one task; an answer, an error and a loss each end one; nothing else
/// changes how many there are.
pub proof fn law_events_start_and_end_tasks(in_flight: int, msg: DatagramView, error: ServerError)
    ensures
        in_flight_after(in_flight, EventView::Received(msg)) == in_flight + 1,
        in_flight_after(in_flight, EventView::Answered(msg)) == in_flight - 1,
        in_flight_after(in_flight, EventView::Failed(error)) == in_flight - 1,
        in_flight_after(in_flight, EventView::TaskLost) == in_flight - 1,
        in_flight_after(in_flight, EventView::ReceiveFailed) == in_flight,
        in_flight_after(in_flight, EventView::SendFailed) == in_flight,
        ends_task(EventView::Answered(msg)),
        ends_task(EventView::Failed(error)),
        ends_task(EventView::TaskLost),
        !ends_task(EventView::Received(msg)),
        !ends_task(EventView::ReceiveFailed),
        !ends_task(EventView::SendFailed),
{
}

/// Events and actions show what they hold.
pub proof fn law_events_and_actions_show_what_they_hold(event: ServerEvent, action: ServerAction)
    ensures
        match event {
            ServerEvent::Received(msg) => event@ == EventView::Received(msg@),
            ServerEvent::ReceiveFailed => event@ == EventView::ReceiveFailed,
            ServerEvent::Answered(msg) => event@ == EventView::Answered(msg@),
            ServerEvent::Failed(error) => event@ == EventView::Failed(error),
            ServerEvent::TaskLost => event@ == EventView::TaskLost,
            ServerEvent::SendFailed => event@ == EventView::SendFailed,
        },
        match action {
            ServerAction::Dispatch(msg) => action@ == ActionView::Dispatch(msg@),
            ServerAction::Send(msg) => action@ == ActionView::Send(msg@),
            ServerAction::ReportFailure(error) => action@ == ActionView::ReportFailure(error),
            ServerAction::ReportLost => action@ == ActionView::ReportLost,
            ServerAction::ReportSendFailure => action@ == ActionView::ReportSendFailure,
            ServerAction::Wait => action@ == ActionView::Wait,
        },
{
}

/// The listener hands every datagram over to be answered to where it came from, and transmits every
/// response to where it is due, whatever the bytes. It stops on a failure of the socket, on closed
/// requests with an error of its own, and on closed responses, and on nothing else.
pub proof fn law_listener_passes_bytes_on<A>(
    bytes: Vec<u8>,
    address: A,
    event: ListenerEvent<A>,
    action: ListenerAction<A>,
)
    requires
        listener_action_for(event, action),
    ensures
        event == ListenerEvent::Datagram(bytes, address) <==> action == ListenerAction::HandOver(
            bytes,
            address,
        ),
        event == ListenerEvent::Response(bytes, address) <==> action == ListenerAction::Transmit(
            bytes,
            address,
        ),
        event is ReceiveFailed || event is SendFailed <==> action is StopWithSocketError,
        event is RequestsClosed <==> action is StopWithError,
        action matches ListenerAction::StopWithError(text) ==> text@ == "server channel error"@,
        event is ResponsesClosed <==> action is Stop,
{
}

} // verus!
