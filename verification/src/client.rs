//! The decisions of a minimal HTTP client. One GET is an exchange of four
//! phases: resolve the host, connect, send the request, receive until the
//! peer closes. The network itself is the caller's: the exchange says what to
//! do next, the caller does it and reports what happened.

use vstd::prelude::*;
use vstd::string::StringExecFns;
use vstd::utf8::{decode_utf8, valid_utf8};
use crate::error::{Error, ErrorView};
use crate::http::{parse, HttpResponse, ResponseView};

verus! {

/// The text of a GET request for `path` on `host`: the request line, the
/// headers `Host`, `Accept` and `Connection`, and an empty line, each line
/// ended by a line feed alone.
pub open spec fn request_text(host: Seq<char>, path: Seq<char>) -> Seq<char> {
    "GET /"@ + path + " HTTP/1.1\n"@ + "Host: "@ + host + "\n"@ + "Accept: text/html\n"@
        + "Connection: close\n"@ + "\n"@
}

/// What an exchange is waiting for.
#[derive(Debug, Clone, Copy, PartialEq, Eq)]
pub enum Phase {
    /// The addresses of the host.
    Resolving,
    /// The connection to the first address.
    Connecting,
    /// The request to be written.
    Sending,
    /// The next bytes of the response.
    Receiving,
}

/// What the caller is asked to do next.
#[derive(Debug, PartialEq, Eq)]
pub enum Action {
    /// Resolve the host name to a list of addresses.
    Resolve { host: String },
    /// Open a stream to the address at this place in the list, on this port.
    Connect { address: usize, port: u16 },
    /// Write this request to the stream.
    Send { request: String },
    /// Read from the stream.
    Receive,
}

/// An action, as plain values.
pub enum ActionView {
    Resolve { host: Seq<char> },
    Connect { address: usize, port: u16 },
    Send { request: Seq<char> },
    Receive,
}

impl View for Action {
    type V = ActionView;

    open spec fn view(&self) -> ActionView {
        match *self {
            Action::Resolve { host } => ActionView::Resolve { host: host@ },
            Action::Connect { address, port } => ActionView::Connect { address, port },
            Action::Send { request } => ActionView::Send { request: request@ },
            Action::Receive => ActionView::Receive,
        }
    }
}

/// What the network did in answer to an action.
#[derive(Debug, PartialEq, Eq)]
pub enum Event {
    /// The host name was resolved to this many addresses.
    Resolved { addresses: usize },
    /// The host name could not be resolved.
    ResolveFailed,
    /// The stream is open.
    Connected,
    /// The stream could not be opened.
    ConnectFailed,
    /// The request was written.
    Sent,
    /// The request could not be written.
    SendFailed,
    /// These bytes were read; none means that the peer has closed the stream.
    Received(Vec<u8>),
    /// Reading failed.
    ReceiveFailed,
}

/// An exchange, as plain values.
pub struct ExchangeView {
    pub phase: Phase,
    pub host: Seq<char>,
    pub port: u16,
    pub path: Seq<char>,
    pub received: Seq<u8>,
}

/// One GET in progress.
#[derive(Debug)]
pub struct Exchange {
    phase: Phase,
    host: String,
    port: u16,
    path: String,
    received: Vec<u8>,
}

impl View for Exchange {
    type V = ExchangeView;

    closed spec fn view(&self) -> ExchangeView {
        ExchangeView {
            phase: self.phase,
            host: self.host@,
            port: self.port,
            path: self.path@,
            received: self.received@,
        }
    }
}

/// How an exchange goes on after an event.
#[derive(Debug)]
pub enum Progress {
    /// The exchange goes on with this action.
    Continue(Exchange, Action),
    /// The exchange is over, with this result.
    Done(Result<HttpResponse, Error>),
}

/// How an exchange goes on, as plain values.
pub enum ProgressView {
    Continue(ExchangeView, ActionView),
    Done(Result<ResponseView, ErrorView>),
}

impl View for Progress {
    type V = ProgressView;

    open spec fn view(&self) -> ProgressView {
        match *self {
            Progress::Continue(exchange, action) => ProgressView::Continue(exchange@, action@),
            Progress::Done(result) => ProgressView::Done(result_view(result)),
        }
    }
}

/// A result of the client, as plain values.
pub open spec fn result_view(result: Result<HttpResponse, Error>) -> Result<
    ResponseView,
    ErrorView,
> {
    match result {
        Ok(response) => Ok(response@),
        Err(e) => Err(e@),
    }
}

/// The end of an exchange in a network error with this message.
pub open spec fn failed(message: Seq<char>) -> ProgressView {
    ProgressView::Done(Err(ErrorView::Network(message)))
}

/// What the received bytes hold: they are decoded as UTF-8 and read as a
/// response.
pub open spec fn response_of(received: Seq<u8>) -> Result<ResponseView, ErrorView> {
    if !valid_utf8(received) {
        Err(ErrorView::Network("invalid response encoding"@))
    } else {
        match parse(decode_utf8(received)) {
            Some(response) => Ok(response),
            None => Err(ErrorView::Malformed),
        }
    }
}

/// The exchange that a GET begins with.
pub open spec fn beginning(host: Seq<char>, port: u16, path: Seq<char>) -> ExchangeView {
    ExchangeView { phase: Phase::Resolving, host, port, path, received: Seq::empty() }
}

/// How the exchange `x` goes on after `event`. In each phase one event lets
/// it go on: addresses, of which the first is taken; the open stream; the
/// written request; bytes that were read, which are kept, until none come and
/// all that was received is read as the response. After any other event the
/// exchange is over, with the error of the phase that it was in.
pub open spec fn after_event(x: ExchangeView, event: Event) -> ProgressView {
    match x.phase {
        Phase::Resolving => match event {
            Event::Resolved { addresses } => if addresses > 0 {
                ProgressView::Continue(
                    ExchangeView { phase: Phase::Connecting, ..x },
                    ActionView::Connect { address: 0, port: x.port },
                )
            } else {
                failed("address resolution failed"@)
            },
            _ => failed("address resolution failed"@),
        },
        Phase::Connecting => match event {
            Event::Connected => ProgressView::Continue(
                ExchangeView { phase: Phase::Sending, ..x },
                ActionView::Send { request: request_text(x.host, x.path) },
            ),
            _ => failed("connection failed"@),
        },
        Phase::Sending => match event {
            Event::Sent => ProgressView::Continue(
                ExchangeView { phase: Phase::Receiving, ..x },
                ActionView::Receive,
            ),
            _ => failed("send failed"@),
        },
        Phase::Receiving => match event {
            Event::Received(bytes) => if bytes@.len() == 0 {
                ProgressView::Done(response_of(x.received))
            } else {
                ProgressView::Continue(
                    ExchangeView { received: x.received + bytes@, ..x },
                    ActionView::Receive,
                )
            },
            _ => failed("receive failed"@),
        },
    }
}

/// Decodes bytes as UTF-8.
///
/// Trusted: this is `String::from_utf8`, which succeeds exactly on valid
/// UTF-8 and then gives the string that the bytes encode.
#[verifier::external_body]
fn string_from_utf8(bytes: Vec<u8>) -> (text: Option<String>)
    ensures
        text is Some <==> valid_utf8(bytes@),
        text is Some ==> text->Some_0@ == decode_utf8(bytes@),
{
    match String::from_utf8(bytes) {
        Ok(text) => Some(text),
        Err(_) => None,
    }
}

/// A client for plain HTTP.
#[derive(Debug)]
pub struct HttpClient {}

impl Default for HttpClient {
    fn default() -> (client: Self)
        ensures
            client == (HttpClient {  }),
    {
        Self::new()
    }
}

impl HttpClient {
    /// A client. It holds nothing: each exchange carries its own state.
    pub fn new() -> (client: Self)
        ensures
            client == (HttpClient {  }),
    {
        Self {  }
    }

    /// The request that asks `host` for `path`.
    pub fn request(&self, host: &str, path: &str) -> (text: String)
        ensures
            text@ == request_text(host@, path@),
    {
        let mut text = String::from_str("GET /");
        text.append(path);
        text.append(" HTTP/1.1\n");
        text.append("Host: ");
        text.append(host);
        text.append("\n");
        text.append("Accept: text/html\n");
        text.append("Connection: close\n");
        text.append("\n");
        text
    }

    /// Reads what was received as a response: the bytes are decoded as UTF-8
    /// and the text is taken apart.
    pub fn response(&self, received: Vec<u8>) -> (r: Result<HttpResponse, Error>)
        ensures
            result_view(r) == response_of(received@),
    {
        match string_from_utf8(received) {
            Some(text) => HttpResponse::new(text),
            None => Err(Error::Network("invalid response encoding".to_string())),
        }
    }

    /// Begins a GET of `path` on `host` and `port`: the first action is to
    /// resolve the host.
    pub fn begin(&self, host: String, port: u16, path: String) -> (r: (Exchange, Action))
        ensures
            r.0@ == beginning(host@, port, path@),
            r.1@ == (ActionView::Resolve { host: host@ }),
    {
        let action = Action::Resolve { host: host.clone() };
        (Exchange { phase: Phase::Resolving, host, port, path, received: Vec::new() }, action)
    }

    /// Takes the exchange one event further.
    pub fn step(&self, exchange: Exchange, event: Event) -> (progress: Progress)
        ensures
            progress@ == after_event(exchange@, event),
    {
        let mut exchange = exchange;
        match exchange.phase {
            Phase::Resolving => match event {
                Event::Resolved { addresses } => {
                    if addresses > 0 {
                        exchange.phase = Phase::Connecting;
                        let action = Action::Connect { address: 0, port: exchange.port };
                        Progress::Continue(exchange, action)
                    } else {
                        Progress::Done(
                            Err(Error::Network("address resolution failed".to_string())),
                        )
                    }
                },
                _ => Progress::Done(Err(Error::Network("address resolution failed".to_string()))),
            },
            Phase::Connecting => match event {
                Event::Connected => {
                    exchange.phase = Phase::Sending;
                    let request = self.request(exchange.host.as_str(), exchange.path.as_str());
                    Progress::Continue(exchange, Action::Send { request })
                },
                _ => Progress::Done(Err(Error::Network("connection failed".to_string()))),
            },
            Phase::Sending => match event {
                Event::Sent => {
                    exchange.phase = Phase::Receiving;
                    Progress::Continue(exchange, Action::Receive)
                },
                _ => Progress::Done(Err(Error::Network("send failed".to_string()))),
            },
            Phase::Receiving => match event {
                Event::Received(bytes) => {
                    if bytes.len() == 0 {
                        Progress::Done(self.response(exchange.received))
                    } else {
                        let mut bytes = bytes;
                        exchange.received.append(&mut bytes);
                        Progress::Continue(exchange, Action::Receive)
                    }
                },
                _ => Progress::Done(Err(Error::Network("receive failed".to_string()))),
            },
        }
    }
}

} // verus!
