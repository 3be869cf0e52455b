//! Requests and their parser.
//!
//! The parser never reads. It is a state machine that says what to read
//! next, a line or a number of body bytes, and is fed what was read.

use crate::headers::Headers;
use crate::text::{
    announced_length, parse_length, split_at_first, split_once, split_whitespace, str_eq, trim,
    trimmed, views, words,
};
use vstd::prelude::*;
use vstd::std_specs::convert::TryFromSpecImpl;
use vstd::string::*;

verus! {

/// The request methods that the server answers.
#[derive(Debug, Clone, Copy, PartialEq, Eq, Structural)]
pub enum HttpMethod {
    GET,
    POST,
}

/// Why a request line was refused.
#[derive(Debug, Clone, Copy, PartialEq, Eq, Structural)]
pub enum ParseError {
    /// The request line has fewer than three words.
    MalformedRequestLine,
    /// The first word of the request line names no known method.
    UnsupportedMethod,
}

impl HttpMethod {
    /// The method that `token` names, if any.
    pub open spec fn named(token: Seq<char>) -> Option<HttpMethod> {
        if token == "GET"@ {
            Some(HttpMethod::GET)
        } else if token == "POST"@ {
            Some(HttpMethod::POST)
        } else {
            None
        }
    }
}

impl TryFrom<&str> for HttpMethod {
    type Error = ParseError;

    /// The method that `value` names; `UnsupportedMethod` when it names none.
    fn try_from(value: &str) -> (r: Result<HttpMethod, ParseError>) {
        if str_eq(value, "GET") {
            Ok(HttpMethod::GET)
        } else if str_eq(value, "POST") {
            Ok(HttpMethod::POST)
        } else {
            Err(ParseError::UnsupportedMethod)
        }
    }
}

impl TryFromSpecImpl<&str> for HttpMethod {
    open spec fn obeys_try_from_spec() -> bool {
        true
    }

    open spec fn try_from_spec(value: &str) -> Result<HttpMethod, ParseError> {
        match HttpMethod::named(value@) {
            Some(method) => Ok(method),
            None => Err(ParseError::UnsupportedMethod),
        }
    }
}

/// A parsed request.
#[derive(Debug)]
pub struct Request {
    pub method: HttpMethod,
    pub path: String,
    pub protocol: String,
    pub headers: Headers,
    pub body: Option<Vec<u8>>,
}

/// What a request holds, as mathematical values.
pub struct RequestView {
    pub method: HttpMethod,
    pub path: Seq<char>,
    pub protocol: Seq<char>,
    pub headers: Map<Seq<char>, Seq<char>>,
    pub body: Option<Seq<u8>>,
}

impl View for Request {
    type V = RequestView;

    open spec fn view(&self) -> RequestView {
        RequestView {
            method: self.method,
            path: self.path@,
            protocol: self.protocol@,
            headers: self.headers@,
            body: match self.body {
                Some(body) => Some(body@),
                None => None,
            },
        }
    }
}

/// What a request line says: method, path and protocol version are its first
/// three words. Words behind the third are not looked at.
pub open spec fn request_line_of(line: Seq<char>) -> Result<
    (HttpMethod, Seq<char>, Seq<char>),
    ParseError,
> {
    let w = words(line);
    if w.len() == 0 {
        Err(ParseError::MalformedRequestLine)
    } else {
        match HttpMethod::named(w[0]) {
            None => Err(ParseError::UnsupportedMethod),
            Some(method) => if w.len() < 3 {
                Err(ParseError::MalformedRequestLine)
            } else {
                Ok((method, w[1], w[2]))
            },
        }
    }
}

/// The name and value that a header line gives: what stands before and
/// behind its first colon, each without surrounding whitespace. A line
/// without a colon gives nothing.
pub open spec fn header_of(line: Seq<char>) -> Option<(Seq<char>, Seq<char>)> {
    match split_at_first(trimmed(line), ':') {
        Some((name, value)) => Some((trimmed(name), trimmed(value))),
        None => None,
    }
}

/// The number of body bytes that `headers` announce: what `Content-Length`
/// says, or `0` without that header.
pub open spec fn content_length(headers: Map<Seq<char>, Seq<char>>) -> nat {
    if headers.contains_key("Content-Length"@) {
        announced_length(headers["Content-Length"@])
    } else {
        0
    }
}

/// Parses a request line.
pub fn parse_request_line(line: &str) -> (r: Result<(HttpMethod, String, String), ParseError>)
    ensures
        match r {
            Ok((method, path, protocol)) => request_line_of(line@) == Ok::<
                (HttpMethod, Seq<char>, Seq<char>),
                ParseError,
            >((method, path@, protocol@)),
            Err(e) => request_line_of(line@) == Err::<
                (HttpMethod, Seq<char>, Seq<char>),
                ParseError,
            >(e),
        },
{
    let w = split_whitespace(line);
    assert(views(w@).len() == w@.len());
    if w.len() == 0 {
        return Err(ParseError::MalformedRequestLine);
    }
    assert(views(w@)[0] == w@[0]@);
    let method = match HttpMethod::try_from(w[0].as_str()) {
        Ok(method) => method,
        Err(e) => {
            return Err(e);
        },
    };
    if w.len() < 3 {
        return Err(ParseError::MalformedRequestLine);
    }
    assert(views(w@)[1] == w@[1]@);
    assert(views(w@)[2] == w@[2]@);
    Ok((method, w[1].clone(), w[2].clone()))
}

/// Parses a header line.
pub fn parse_header_line(line: &str) -> (r: Option<(String, String)>)
    ensures
        match r {
            Some((name, value)) => header_of(line@) == Some((name@, value@)),
            None => header_of(line@) is None,
        },
{
    let t = trim(line);
    match split_once(t.as_str(), ':') {
        Some((name, value)) => Some((trim(name.as_str()), trim(value.as_str()))),
        None => None,
    }
}

/// The number of body bytes that `headers` announce.
pub fn body_length(headers: &Headers) -> (r: usize)
    ensures
        r == content_length(headers@),
{
    match headers.get("Content-Length") {
        Some(value) => parse_length(value.as_str()),
        None => 0,
    }
}

/// How far the reading of one request has come.
#[derive(Debug)]
pub enum Parsing {
    /// Nothing was read yet: the request line comes next.
    AwaitingRequestLine,
    /// The request line was read: a header line, or the line that ends the
    /// headers, comes next.
    AwaitingHeader(Request),
    /// The headers announced a body of so many bytes, which comes next.
    AwaitingBody(Request, usize),
    /// The request is whole.
    Complete(Request),
}

/// What the parser needs next from the connection.
#[derive(Debug, Clone, Copy, PartialEq, Eq, Structural)]
pub enum Read {
    /// One line, up to and including its line feed; the empty string at the
    /// end of the stream.
    Line,
    /// Exactly so many bytes.
    Exact(usize),
    /// Nothing: the request is whole.
    Nothing,
}

/// A parser state, as mathematical values.
pub enum ParsingView {
    AwaitingRequestLine,
    AwaitingHeader(RequestView),
    AwaitingBody(RequestView, usize),
    Complete(RequestView),
}

impl View for Parsing {
    type V = ParsingView;

    open spec fn view(&self) -> ParsingView {
        match *self {
            Parsing::AwaitingRequestLine => ParsingView::AwaitingRequestLine,
            Parsing::AwaitingHeader(request) => ParsingView::AwaitingHeader(request@),
            Parsing::AwaitingBody(request, length) => ParsingView::AwaitingBody(request@, length),
            Parsing::Complete(request) => ParsingView::Complete(request@),
        }
    }
}

/// What `state` needs next.
pub open spec fn next_read_of(state: ParsingView) -> Read {
    match state {
        ParsingView::AwaitingRequestLine => Read::Line,
        ParsingView::AwaitingHeader(_) => Read::Line,
        ParsingView::AwaitingBody(_, length) => Read::Exact(length),
        ParsingView::Complete(_) => Read::Nothing,
    }
}

/// The state that follows `state` once `line` was read.
///
/// The request line must parse. A header line sets its header, replacing an
/// earlier one of the same name; a line without a colon is passed over. A
/// line of nothing but whitespace ends the headers: the request is then
/// whole, unless the headers announce a body. A state that awaits no line
/// stays as it is.
pub open spec fn after_line(state: ParsingView, line: Seq<char>) -> Result<ParsingView, ParseError> {
    match state {
        ParsingView::AwaitingRequestLine => match request_line_of(line) {
            Ok((method, path, protocol)) => Ok(
                ParsingView::AwaitingHeader(
                    RequestView { method, path, protocol, headers: Map::empty(), body: None },
                ),
            ),
            Err(e) => Err(e),
        },
        ParsingView::AwaitingHeader(request) => if trimmed(line).len() == 0 {
            if content_length(request.headers) > 0 {
                Ok(ParsingView::AwaitingBody(request, content_length(request.headers) as usize))
            } else {
                Ok(ParsingView::Complete(request))
            }
        } else {
            match header_of(line) {
                Some((name, value)) => Ok(
                    ParsingView::AwaitingHeader(
                        RequestView {
                            method: request.method,
                            path: request.path,
                            protocol: request.protocol,
                            headers: request.headers.insert(name, value),
                            body: request.body,
                        },
                    ),
                ),
                None => Ok(state),
            }
        },
        ParsingView::AwaitingBody(_, _) => Ok(state),
        ParsingView::Complete(_) => Ok(state),
    }
}

/// The state that follows `state` once the bytes `body` were read: the whole
/// request, with exactly these bytes as its body, where `state` awaited a
/// body of this length, and nothing otherwise.
pub open spec fn after_body(state: ParsingView, body: Seq<u8>) -> Option<ParsingView> {
    match state {
        ParsingView::AwaitingBody(request, length) => if body.len() == length {
            Some(
                ParsingView::Complete(
                    RequestView {
                        method: request.method,
                        path: request.path,
                        protocol: request.protocol,
                        headers: request.headers,
                        body: Some(body),
                    },
                ),
            )
        } else {
            None
        },
        _ => None,
    }
}

/// The state that follows `state` once all of `lines` were read in order, or
/// the first error on the way.
pub open spec fn after_lines(state: ParsingView, lines: Seq<Seq<char>>) -> Result<
    ParsingView,
    ParseError,
>
    decreases lines.len(),
{
    if lines.len() == 0 {
        Ok(state)
    } else {
        match after_lines(state, lines.drop_last()) {
            Ok(before) => after_line(before, lines.last()),
            Err(e) => Err(e),
        }
    }
}

/// The request that `state` holds, if it holds one.
pub open spec fn request_of(state: ParsingView) -> Option<RequestView> {
    match state {
        ParsingView::AwaitingRequestLine => None,
        ParsingView::AwaitingHeader(request) => Some(request),
        ParsingView::AwaitingBody(request, _) => Some(request),
        ParsingView::Complete(request) => Some(request),
    }
}

/// What holds of every state that lines alone lead to: the request has no
/// body yet, a body is awaited exactly where the headers announce one, and
/// its length is the announced one.
pub open spec fn reached_by_lines(state: ParsingView) -> bool {
    match state {
        ParsingView::AwaitingRequestLine => true,
        ParsingView::AwaitingHeader(request) => request.body is None,
        ParsingView::AwaitingBody(request, length) => request.body is None && length > 0 && length
            == content_length(request.headers),
        ParsingView::Complete(request) => request.body is None && content_length(request.headers)
            == 0,
    }
}

impl Parsing {
    /// The state in which nothing was read yet.
    pub fn new() -> (r: Parsing)
        ensures
            r@ == ParsingView::AwaitingRequestLine,
    {
        Parsing::AwaitingRequestLine
    }

    /// What to read next.
    pub fn next_read(&self) -> (r: Read)
        ensures
            r == next_read_of(self@),
    {
        match self {
            Parsing::AwaitingRequestLine => Read::Line,
            Parsing::AwaitingHeader(_) => Read::Line,
            Parsing::AwaitingBody(_, length) => Read::Exact(*length),
            Parsing::Complete(_) => Read::Nothing,
        }
    }

    /// Takes the line that was read.
    pub fn feed_line(self, line: &str) -> (r: Result<Parsing, ParseError>)
        ensures
            match r {
                Ok(next) => after_line(self@, line@) == Ok::<ParsingView, ParseError>(next@),
                Err(e) => after_line(self@, line@) == Err::<ParsingView, ParseError>(e),
            },
    {
        match self {
            Parsing::AwaitingRequestLine => match parse_request_line(line) {
                Ok((method, path, protocol)) => Ok(
                    Parsing::AwaitingHeader(
                        Request { method, path, protocol, headers: Headers::new(), body: None },
                    ),
                ),
                Err(e) => Err(e),
            },
            Parsing::AwaitingHeader(request) => {
                let t = trim(line);
                if t.as_str().unicode_len() == 0 {
                    let length = body_length(&request.headers);
                    if length > 0 {
                        Ok(Parsing::AwaitingBody(request, length))
                    } else {
                        Ok(Parsing::Complete(request))
                    }
                } else {
                    match parse_header_line(line) {
                        Some((name, value)) => {
                            let mut request = request;
                            request.headers.insert(name, value);
                            Ok(Parsing::AwaitingHeader(request))
                        },
                        None => Ok(Parsing::AwaitingHeader(request)),
                    }
                }
            },
            Parsing::AwaitingBody(request, length) => Ok(Parsing::AwaitingBody(request, length)),
            Parsing::Complete(request) => Ok(Parsing::Complete(request)),
        }
    }

    /// Takes the body bytes that were read.
    pub fn feed_body(self, body: Vec<u8>) -> (r: Option<Parsing>)
        ensures
            match r {
                Some(next) => after_body(self@, body@) == Some(next@),
                None => after_body(self@, body@) is None,
            },
    {
        match self {
            Parsing::AwaitingBody(request, length) => {
                if body.len() == length {
                    Some(
                        Parsing::Complete(
                            Request {
                                method: request.method,
                                path: request.path,
                                protocol: request.protocol,
                                headers: request.headers,
                                body: Some(body),
                            },
                        ),
                    )
                } else {
                    None
                }
            },
            _ => None,
        }
    }

    /// The request, once it is whole.
    pub fn into_request(self) -> (r: Option<Request>)
        ensures
            match r {
                Some(request) => self@ == ParsingView::Complete(request@),
                None => !(self@ is Complete),
            },
    {
        match self {
            Parsing::Complete(request) => Some(request),
            _ => None,
        }
    }
}

/// Lines alone never give a request a body, and lead to awaiting a body
/// only of the length that the headers announce.
pub proof fn lemma_reached_by_lines(lines: Seq<Seq<char>>)
    ensures
        after_lines(ParsingView::AwaitingRequestLine, lines) matches Ok(state) ==> reached_by_lines(
            state,
        ),
    decreases lines.len(),
{
    if lines.len() > 0 {
        lemma_reached_by_lines(lines.drop_last());
    }
}

/// A body of the announced length comes back byte for byte.
///
/// Let `lines` be a request line and header lines that parse, with a
/// `Content-Length` header that announces as many bytes as `body` has, and
/// let `end` be a line that ends the headers. Unless `body` is empty, the
/// parser then awaits exactly that many bytes, and fed `body` it completes
/// the request with `body` as its body and all else as the lines gave it.
/// When `body` is empty, the request is whole without a body.
pub proof fn law_body_is_recovered(lines: Seq<Seq<char>>, end: Seq<char>, body: Seq<u8>)
    requires
        after_lines(ParsingView::AwaitingRequestLine, lines) matches Ok(
            ParsingView::AwaitingHeader(head),
        ) && head.headers.contains_key("Content-Length"@) && announced_length(
            head.headers["Content-Length"@],
        ) == body.len(),
        trimmed(end).len() == 0,
    ensures
        after_lines(ParsingView::AwaitingRequestLine, lines) matches Ok(
            ParsingView::AwaitingHeader(head),
        ) && if body.len() > 0 {
            &&& after_lines(ParsingView::AwaitingRequestLine, lines.push(end)) == Ok::<
                ParsingView,
                ParseError,
            >(ParsingView::AwaitingBody(head, body.len() as usize))
            &&& after_body(ParsingView::AwaitingBody(head, body.len() as usize), body) == Some(
                ParsingView::Complete(
                    RequestView {
                        method: head.method,
                        path: head.path,
                        protocol: head.protocol,
                        headers: head.headers,
                        body: Some(body),
                    },
                ),
            )
        } else {
            &&& after_lines(ParsingView::AwaitingRequestLine, lines.push(end)) == Ok::<
                ParsingView,
                ParseError,
            >(ParsingView::Complete(head))
            &&& head.body is None
        },
{
    lemma_reached_by_lines(lines);
    assert(lines.push(end).drop_last() =~= lines);
}

} // verus!
