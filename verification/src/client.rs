//! The reconnecting client: a state machine that is told what happened on the
//! transport and answers with what to do next.

use crate::error::{Error, ErrorView};
use crate::event::{parse_event_line, parse_line, Event, EventView, ParseResult};
use crate::response::{check_response, error_of, is_success, response_error};
use crate::text::text_of;
use vstd::prelude::*;

verus! {

/// The retry interval of a new client, in milliseconds.
pub const DEFAULT_RETRY: u64 = 5000;

/// A `GET` request for the transport to issue.
#[derive(Debug, PartialEq, Eq)]
pub struct Request {
    /// The address of the endpoint.
    pub url: String,
    /// The header fields, each a name and a value, in the order to send them.
    pub headers: Vec<(String, String)>,
}

/// What a [`Request`] holds, as sequences of characters.
pub struct RequestView {
    pub url: Seq<char>,
    pub headers: Seq<(Seq<char>, Seq<char>)>,
}

impl View for Request {
    type V = RequestView;

    open spec fn view(&self) -> RequestView {
        RequestView { url: self.url@, headers: self.headers.deep_view() }
    }
}

/// What the driver of a [`Client`] reports to it.
#[derive(Debug, PartialEq, Eq)]
pub enum Input {
    /// The caller asks for the next event, or a wait is over.
    Pull,
    /// The transport could not complete the request; the text is its report.
    TransportError(String),
    /// The transport got a response with this status and `Content-Type`.
    Response { status: u16, content_type: Option<String> },
    /// A line was read from the body of the open response.
    Line(String),
    /// The body of the open response ended.
    Eof,
    /// Reading from the body of the open response failed; the text is the report.
    ReadError(String),
}

/// What a [`Client`] asks its driver to do next.
#[derive(Debug, PartialEq, Eq)]
pub enum Action {
    /// Block for so many milliseconds, then report `Input::Pull`.
    Wait(u64),
    /// Release the open connection, if there is one, issue the request, and
    /// report `Input::Response` or `Input::TransportError`.
    Connect(Request),
    /// Read the next line of the open body, and report `Input::Line`,
    /// `Input::Eof` or `Input::ReadError`.
    ReadLine,
    /// The pull is over: hand the event to the caller.
    Yield(Event),
    /// The pull is over: hand the error to the caller.
    Fail(Error),
}

/// What an [`Action`] holds, as sequences of characters.
pub enum ActionView {
    Wait(u64),
    Connect(RequestView),
    ReadLine,
    Yield(EventView),
    Fail(ErrorView),
}

impl View for Action {
    type V = ActionView;

    open spec fn view(&self) -> ActionView {
        match self {
            Action::Wait(wait) => ActionView::Wait(*wait),
            Action::Connect(request) => ActionView::Connect(request@),
            Action::ReadLine => ActionView::ReadLine,
            Action::Yield(event) => ActionView::Yield(event@),
            Action::Fail(error) => ActionView::Fail(error@),
        }
    }
}

/// How long a client still has to wait at `now` before it may connect: what
/// is left of `retry` since the last attempt. A clock that ran backwards
/// counts as no time elapsed.
pub open spec fn remaining_wait(last_try: Option<u64>, retry: u64, now: u64) -> u64 {
    match last_try {
        Some(last) => {
            let elapsed = if now >= last {
                now - last
            } else {
                0
            };
            if elapsed < retry {
                (retry - elapsed) as u64
            } else {
                0
            }
        },
        None => 0,
    }
}

/// A client for a Server-Sent Events endpoint.
///
/// The client performs no I/O. Its driver reports each thing that happened
/// to [`Client::step`], with the reading of a millisecond clock, and does
/// what the returned [`Action`] says.
#[derive(Debug)]
pub struct Client {
    url: String,
    last_event_id: Option<String>,
    last_try: Option<u64>,
    connected: bool,
    event: Event,
    retry: u64,
}

/// The state of a [`Client`].
pub struct ClientView {
    /// The address of the endpoint.
    pub url: Seq<char>,
    /// The id of the last dispatched event that had one.
    pub last_event_id: Option<Seq<char>>,
    /// The clock reading of the last attempt to connect.
    pub last_try: Option<u64>,
    /// Whether a connection is open.
    pub connected: bool,
    /// The event that the lines read in this pull have built so far.
    pub event: EventView,
    /// The retry interval in milliseconds.
    pub retry: u64,
}

impl ClientView {
    /// The request that opens the stream: it accepts `text/event-stream`, and
    /// names the last event id where one is known.
    pub open spec fn request(self) -> RequestView {
        RequestView {
            url: self.url,
            headers: match self.last_event_id {
                Some(id) => seq![("Accept"@, "text/event-stream"@), ("Last-Event-ID"@, id)],
                None => seq![("Accept"@, "text/event-stream"@)],
            },
        }
    }

    /// The state without a connection, and with nothing accumulated.
    pub open spec fn released(self) -> ClientView {
        ClientView { connected: false, event: EventView::empty(), ..self }
    }

    /// Going from idle towards a connection at `now`: wait out what is left of
    /// the retry interval, or note the attempt and issue the request.
    pub open spec fn connect(self, now: u64) -> (ClientView, ActionView) {
        let wait = remaining_wait(self.last_try, self.retry, now);
        if wait > 0 {
            (self.released(), ActionView::Wait(wait))
        } else {
            (
                ClientView { last_try: Some(now), ..self.released() },
                ActionView::Connect(self.request()),
            )
        }
    }

    /// A pull starts with nothing accumulated. It reads on where a connection
    /// is open, and connects where none is.
    pub open spec fn pull(self, now: u64) -> (ClientView, ActionView) {
        if self.connected {
            (ClientView { event: EventView::empty(), ..self }, ActionView::ReadLine)
        } else {
            self.connect(now)
        }
    }

    /// An error is surfaced, and leaves the client idle.
    pub open spec fn fail(self, error: ErrorView) -> (ClientView, ActionView) {
        (self.released(), ActionView::Fail(error))
    }

    /// A response opens the connection unless it calls for an error.
    pub open spec fn respond(self, error: Option<ErrorView>) -> (ClientView, ActionView) {
        match error {
            None => (
                ClientView { connected: true, event: EventView::empty(), ..self },
                ActionView::ReadLine,
            ),
            Some(error) => self.fail(error),
        }
    }

    /// A line of the open body goes through the parser. A finished event is
    /// handed out, and its id, if it has one, becomes the last event id.
    pub open spec fn read(self, line: Seq<char>) -> (ClientView, ActionView) {
        let (result, event) = parse_line(line, self.event);
        match result {
            ParseResult::Next => (ClientView { event, ..self }, ActionView::ReadLine),
            ParseResult::SetRetry(retry) => (
                ClientView { event, retry, ..self },
                ActionView::ReadLine,
            ),
            ParseResult::Dispatch => (
                ClientView {
                    event: EventView::empty(),
                    last_event_id: if event.id is Some {
                        event.id
                    } else {
                        self.last_event_id
                    },
                    ..self
                },
                ActionView::Yield(event),
            ),
        }
    }

    /// The state after `input` at `now`, and the action that it calls for.
    /// What is said of a body while no connection is open counts as a pull.
    pub open spec fn step(self, now: u64, input: Input) -> (ClientView, ActionView) {
        match input {
            Input::Pull => self.pull(now),
            Input::TransportError(report) => self.fail(ErrorView::Transport(report@)),
            Input::Response { status, content_type } => self.respond(
                response_error(status, text_of(content_type)),
            ),
            Input::Line(line) => if self.connected {
                self.read(line@)
            } else {
                self.connect(now)
            },
            Input::Eof => self.released().connect(now),
            Input::ReadError(report) => if self.connected {
                self.fail(ErrorView::Io(report@))
            } else {
                self.connect(now)
            },
        }
    }
}

impl View for Client {
    type V = ClientView;

    closed spec fn view(&self) -> ClientView {
        ClientView {
            url: self.url@,
            last_event_id: text_of(self.last_event_id),
            last_try: self.last_try,
            connected: self.connected,
            event: self.event@,
            retry: self.retry,
        }
    }
}

impl Client {
    /// Constructs a new EventSource client for the given URL.
    ///
    /// This does not start an HTTP request.
    pub fn new(url: &str) -> (client: Client)
        ensures
            client@ == (ClientView {
                url: url@,
                last_event_id: None,
                last_try: None,
                connected: false,
                event: EventView::empty(),
                retry: DEFAULT_RETRY,
            }),
    {
        Client {
            url: url.to_owned(),
            last_event_id: None,
            last_try: None,
            connected: false,
            event: Event::new(),
            retry: DEFAULT_RETRY,
        }
    }

    /// The address of the endpoint.
    pub fn url(&self) -> (url: &str)
        ensures
            url@ == self@.url,
    {
        self.url.as_str()
    }

    /// The id of the last dispatched event that had one.
    pub fn last_event_id(&self) -> (id: Option<&str>)
        ensures
            match id {
                Some(id) => self@.last_event_id == Some(id@),
                None => self@.last_event_id is None,
            },
    {
        match &self.last_event_id {
            Some(id) => Some(id.as_str()),
            None => None,
        }
    }

    /// Reconnection time in milliseconds.
    pub fn retry(&self) -> (retry: u64)
        ensures
            retry == self@.retry,
    {
        self.retry
    }

    /// Sets the reconnection time in milliseconds. Note that the reconnection time can be
    /// changed by the event stream, so changing this may not make a difference.
    pub fn set_retry(&mut self, retry: u64)
        ensures
            final(self)@ == (ClientView { retry, ..old(self)@ }),
    {
        self.retry = retry;
    }

    /// Whether a connection is open.
    pub fn is_connected(&self) -> (connected: bool)
        ensures
            connected == self@.connected,
    {
        self.connected
    }

    /// The request that opens the stream.
    pub fn next_request(&self) -> (request: Request)
        ensures
            request@ == self@.request(),
    {
        let mut headers: Vec<(String, String)> = Vec::new();
        headers.push(("Accept".to_owned(), "text/event-stream".to_owned()));
        match &self.last_event_id {
            Some(id) => {
                headers.push(("Last-Event-ID".to_owned(), id.clone()));
            },
            None => {},
        }
        let request = Request { url: self.url.clone(), headers };
        assert(request@.headers =~= self@.request().headers);
        request
    }

    /// How long the client still has to wait at `now` before it may connect.
    pub fn remaining_wait(&self, now: u64) -> (wait: u64)
        ensures
            wait == remaining_wait(self@.last_try, self@.retry, now),
    {
        match self.last_try {
            Some(last) => {
                let elapsed = if now >= last {
                    now - last
                } else {
                    0
                };
                if elapsed < self.retry {
                    self.retry - elapsed
                } else {
                    0
                }
            },
            None => 0,
        }
    }

    fn release(&mut self)
        ensures
            final(self)@ == old(self)@.released(),
    {
        self.connected = false;
        self.event.clear();
    }

    fn connect(&mut self, now: u64) -> (action: Action)
        ensures
            (final(self)@, action@) == old(self)@.connect(now),
    {
        let wait = self.remaining_wait(now);
        self.release();
        if wait > 0 {
            Action::Wait(wait)
        } else {
            self.last_try = Some(now);
            Action::Connect(self.next_request())
        }
    }

    fn fail(&mut self, error: Error) -> (action: Action)
        ensures
            (final(self)@, action@) == old(self)@.fail(error@),
    {
        self.release();
        Action::Fail(error)
    }

    /// Takes in the verdict on a response: the connection is open where the
    /// response passed, and the error is surfaced where it did not.
    pub fn respond(&mut self, checked: Result<(), Error>) -> (action: Action)
        ensures
            (final(self)@, action@) == old(self)@.respond(error_of(checked)),
    {
        match checked {
            Ok(_) => {
                self.connected = true;
                self.event.clear();
                Action::ReadLine
            },
            Err(error) => self.fail(error),
        }
    }

    fn read(&mut self, line: &str) -> (action: Action)
        ensures
            (final(self)@, action@) == old(self)@.read(line@),
    {
        match parse_event_line(line, &mut self.event) {
            ParseResult::Next => Action::ReadLine,
            ParseResult::SetRetry(retry) => {
                self.retry = retry;
                Action::ReadLine
            },
            ParseResult::Dispatch => {
                let mut event = Event::new();
                std::mem::swap(&mut self.event, &mut event);
                match &event.id {
                    Some(id) => {
                        self.last_event_id = Some(id.clone());
                    },
                    None => {},
                }
                Action::Yield(event)
            },
        }
    }

    /// Takes in what happened and says what to do next. `now` is the reading
    /// of a clock that counts milliseconds.
    pub fn step(&mut self, now: u64, input: Input) -> (action: Action)
        ensures
            (final(self)@, action@) == old(self)@.step(now, input),
    {
        match input {
            Input::Pull => {
                if self.connected {
                    self.event.clear();
                    Action::ReadLine
                } else {
                    self.connect(now)
                }
            },
            Input::TransportError(report) => self.fail(Error::Transport(report)),
            Input::Response { status, content_type } => {
                let checked = match &content_type {
                    Some(value) => check_response(status, Some(value.as_str())),
                    None => check_response(status, None),
                };
                self.respond(checked)
            },
            Input::Line(line) => {
                if self.connected {
                    self.read(line.as_str())
                } else {
                    self.connect(now)
                }
            },
            Input::Eof => {
                self.release();
                self.connect(now)
            },
            Input::ReadError(report) => {
                if self.connected {
                    self.fail(Error::Io(report))
                } else {
                    self.connect(now)
                }
            },
        }
    }
}

/// No step changes the address of the endpoint. The retry interval changes
/// only where a line of an open body sets it.
pub proof fn lemma_step_keeps_settings(client: ClientView, now: u64, input: Input)
    ensures
        client.step(now, input).0.url == client.url,
        client.step(now, input).0.retry != client.retry ==> client.connected && (
        input matches Input::Line(line) && parse_line(line@, client.event).0
            == ParseResult::SetRetry(client.step(now, input).0.retry)),
{
}

/// The last event id changes only where an event with an id is handed out,
/// and is then that id.
pub proof fn lemma_last_event_id(client: ClientView, now: u64, input: Input)
    ensures
        client.step(now, input).0.last_event_id == match client.step(now, input).1 {
            ActionView::Yield(event) => if event.id is Some {
                event.id
            } else {
                client.last_event_id
            },
            _ => client.last_event_id,
        },
{
}

/// Every error that is surfaced leaves the client without a connection and
/// with nothing accumulated, so that the next pull connects again. So does
/// every step that asks to wait or to connect.
pub proof fn lemma_errors_leave_idle(client: ClientView, now: u64, input: Input)
    ensures
        match client.step(now, input).1 {
            ActionView::Fail(_) | ActionView::Wait(_) | ActionView::Connect(_) => {
                &&& !client.step(now, input).0.connected
                &&& client.step(now, input).0.event == EventView::empty()
            },
            ActionView::ReadLine => client.step(now, input).0.connected,
            ActionView::Yield(_) => {
                &&& client.step(now, input).0.connected
                &&& client.step(now, input).0.event == EventView::empty()
            },
        },
{
}

/// A step asks to connect only when the retry interval since the last
/// attempt is over. It then notes the attempt at `now`, and the request
/// accepts `text/event-stream` and names the last event id where one is
/// known.
pub proof fn lemma_connect_is_paced(client: ClientView, now: u64, input: Input)
    requires
        client.step(now, input).1 is Connect,
    ensures
        remaining_wait(client.last_try, client.retry, now) == 0,
        client.step(now, input).0.last_try == Some(now),
        client.step(now, input).1 == ActionView::Connect(client.request()),
        client.request().headers[0] == ("Accept"@, "text/event-stream"@),
        client.last_event_id matches Some(id) ==> client.request().headers.len() == 2
            && client.request().headers[1] == ("Last-Event-ID"@, id),
        client.last_event_id is None ==> client.request().headers.len() == 1,
{
}

/// A step asks to wait only while no connection is open, and for what is
/// left of the retry interval since the last attempt; the attempt time stays.
pub proof fn lemma_wait_is_what_is_left(client: ClientView, now: u64, input: Input)
    requires
        client.step(now, input).1 is Wait,
    ensures
        client.step(now, input).1 == ActionView::Wait(
            remaining_wait(client.last_try, client.retry, now),
        ),
        remaining_wait(client.last_try, client.retry, now) > 0,
        client.step(now, input).0.last_try == client.last_try,
        client.last_try matches Some(last) ==> (last <= now ==> now + remaining_wait(
            client.last_try,
            client.retry,
            now,
        ) == last + client.retry),
{
}

/// A response whose status is no success surfaces that status, whatever its
/// content type. One that has a success status and no content type surfaces
/// that this is missing. Neither changes the last event id or the time of the
/// last attempt.
pub proof fn lemma_refused_response(
    client: ClientView,
    now: u64,
    status: u16,
    content_type: Option<String>,
)
    requires
        !is_success(status) || content_type is None,
    ensures
        client.step(now, Input::Response { status, content_type }) == (
            client.released(),
            ActionView::Fail(
                if is_success(status) {
                    ErrorView::NoContentType
                } else {
                    ErrorView::Http(status)
                },
            ),
        ),
        client.released().last_event_id == client.last_event_id,
        client.released().last_try == client.last_try,
{
}

/// After an attempt at `last` that failed, a pull at `now` waits for what is
/// left of the retry interval, and connects again once it is over.
pub proof fn lemma_retry_after_failure(client: ClientView, last: u64, now: u64)
    requires
        !client.connected,
        client.last_try == Some(last),
        last <= now,
    ensures
        now - last < client.retry ==> client.step(now, Input::Pull) == (
            client.released(),
            ActionView::Wait((client.retry - (now - last)) as u64),
        ),
        now - last >= client.retry ==> client.step(now, Input::Pull) == (
            ClientView { last_try: Some(now), ..client.released() },
            ActionView::Connect(client.request()),
        ),
{
}

/// The events that the lines of a body finish, in the order of the blank
/// lines that end them, where `event` is what was accumulated before.
pub open spec fn dispatched(lines: Seq<Seq<char>>, event: EventView) -> Seq<EventView>
    decreases lines.len(),
{
    if lines.len() == 0 {
        Seq::empty()
    } else {
        let (result, next) = parse_line(lines[0], event);
        if result == ParseResult::Dispatch {
            seq![next] + dispatched(lines.drop_first(), EventView::empty())
        } else {
            dispatched(lines.drop_first(), next)
        }
    }
}

/// What the lines of a body leave accumulated once they are all read, where
/// `event` is what was accumulated before.
pub open spec fn pending(lines: Seq<Seq<char>>, event: EventView) -> EventView
    decreases lines.len(),
{
    if lines.len() == 0 {
        event
    } else {
        let (result, next) = parse_line(lines[0], event);
        if result == ParseResult::Dispatch {
            pending(lines.drop_first(), EventView::empty())
        } else {
            pending(lines.drop_first(), next)
        }
    }
}

impl ClientView {
    /// The client after its driver has read `lines` from the open body and
    /// the caller has pulled again after each event, with the events that were
    /// handed out.
    pub open spec fn read_all(self, now: u64, lines: Seq<Seq<char>>) -> (
        ClientView,
        Seq<EventView>,
    )
        decreases lines.len(),
    {
        if lines.len() == 0 {
            (self, Seq::empty())
        } else {
            let (next, action) = self.read(lines[0]);
            match action {
                ActionView::Yield(event) => {
                    let (last, events) = next.pull(now).0.read_all(now, lines.drop_first());
                    (last, seq![event] + events)
                },
                _ => next.read_all(now, lines.drop_first()),
            }
        }
    }
}

/// While a connection is open, the client hands out the events of the body
/// in the order in which their blank lines stand in it, whatever the clock
/// says. It stays connected, and holds what the lines after the last blank
/// one have built.
pub proof fn lemma_events_in_order(client: ClientView, now: u64, lines: Seq<Seq<char>>)
    requires
        client.connected,
    ensures
        client.read_all(now, lines).1 == dispatched(lines, client.event),
        client.read_all(now, lines).0.connected,
        client.read_all(now, lines).0.event == pending(lines, client.event),
        client.read_all(now, lines).0.last_try == client.last_try,
    decreases lines.len(),
{
    if lines.len() > 0 {
        let (next, action) = client.read(lines[0]);
        match action {
            ActionView::Yield(event) => {
                lemma_events_in_order(next.pull(now).0, now, lines.drop_first());
            },
            _ => {
                lemma_events_in_order(next, now, lines.drop_first());
            },
        }
    }
}

} // verus!
