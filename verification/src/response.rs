//! Responses and their serialization.
//!
//! A response goes out as a status line, its headers in ascending order of
//! name, an empty line and the payload. The `Content-Length` header is set
//! from the payload as it is sent, after any compression.

use crate::appconfig::AppConfig;
use crate::buffer::bytes_contents;
use crate::gzip::{gzip, gzip_of};
use crate::headers::{entries_of, Headers};
use crate::request::Request;
use crate::text::{
    announced_length, contains, decimal, decimal_text, law_announced_length_of_decimal_text,
    pieces, split, str_eq, text_lt, trim, trimmed, views,
};
use bytes::Bytes;
use bytes::BytesMut;
use vstd::prelude::*;
use vstd::slice::slice_to_vec;
use vstd::string::*;
use vstd::utf8::encode_utf8;

verus! {

/// Whether `code` is a status that the server knows how to announce.
pub open spec fn known_status(code: usize) -> bool {
    code == 200 || code == 201 || code == 404
}

/// The status `code` with its reason phrase.
pub open spec fn status_text(code: usize) -> Seq<char>
    recommends
        known_status(code),
{
    if code == 200 {
        "200 OK"@
    } else if code == 201 {
        "201 Created"@
    } else {
        "404 Not Found"@
    }
}

/// The first line of a response with status `code`.
pub open spec fn status_line_text(code: usize) -> Seq<char> {
    "HTTP/1.1 "@ + status_text(code) + "\r\n"@
}

/// The line that announces one header.
pub open spec fn header_line_text(name: Seq<char>, value: Seq<char>) -> Seq<char> {
    name + ": "@ + value + "\r\n"@
}

/// The lines of `entries`, one after the other.
pub open spec fn header_block(entries: Seq<(Seq<char>, Seq<char>)>) -> Seq<char>
    decreases entries.len(),
{
    if entries.len() == 0 {
        Seq::empty()
    } else {
        header_block(entries.drop_last()) + header_line_text(entries.last().0, entries.last().1)
    }
}

/// The bytes of a response on the wire: status line, the headers in ascending
/// order of name, an empty line, and the payload.
pub open spec fn wire_bytes(
    code: usize,
    headers: Map<Seq<char>, Seq<char>>,
    payload: Seq<u8>,
) -> Seq<u8> {
    encode_utf8(status_line_text(code)) + encode_utf8(header_block(entries_of(headers)))
        + encode_utf8("\r\n"@) + payload
}

/// Whether `headers` ask for a gzip-compressed payload.
pub open spec fn wants_gzip(headers: Map<Seq<char>, Seq<char>>) -> bool {
    headers.contains_key("Content-Encoding"@) && headers["Content-Encoding"@] == "gzip"@
}

/// The payload that goes out for `body` under `headers`.
pub open spec fn encoded_payload(headers: Map<Seq<char>, Seq<char>>, body: Seq<u8>) -> Seq<u8> {
    if wants_gzip(headers) {
        gzip_of(body)
    } else {
        body
    }
}

/// The headers that go out with `payload`: `headers`, with `Content-Length`
/// set to the number of payload bytes.
pub open spec fn sent_headers(headers: Map<Seq<char>, Seq<char>>, payload: Seq<u8>) -> Map<
    Seq<char>,
    Seq<char>,
> {
    headers.insert("Content-Length"@, decimal_text(payload.len()))
}

/// The first of the `requested` encodings, each taken without surrounding
/// whitespace, that is among the `offered` ones.
pub open spec fn first_offered(requested: Seq<Seq<char>>, offered: Seq<Seq<char>>) -> Option<
    Seq<char>,
>
    decreases requested.len(),
{
    if requested.len() == 0 {
        None
    } else if offered.contains(trimmed(requested[0])) {
        Some(trimmed(requested[0]))
    } else {
        first_offered(requested.drop_first(), offered)
    }
}

/// The content encoding that a request with `headers` is answered in: the
/// first entry of its comma-separated `Accept-Encoding` list that the server
/// offers. Without the header, or without such an entry, there is none.
pub open spec fn negotiated(headers: Map<Seq<char>, Seq<char>>, offered: Seq<Seq<char>>) -> Option<
    Seq<char>,
> {
    if headers.contains_key("Accept-Encoding"@) {
        first_offered(pieces(headers["Accept-Encoding"@], ','), offered)
    } else {
        None
    }
}

/// The headers of a response once the encoding is settled.
pub open spec fn negotiated_headers(
    headers: Map<Seq<char>, Seq<char>>,
    encoding: Option<Seq<char>>,
) -> Map<Seq<char>, Seq<char>> {
    match encoding {
        Some(encoding) => headers.insert("Content-Encoding"@, encoding),
        None => headers,
    }
}

/// The payload could not be compressed.
#[derive(Debug, Clone, Copy, PartialEq, Eq, Structural)]
pub struct EncodingError;

/// The status `code` with its reason phrase.
pub fn get_status(code: usize) -> (r: &'static str)
    requires
        known_status(code),
    ensures
        r@ == status_text(code),
{
    if code == 200 {
        "200 OK"
    } else if code == 201 {
        "201 Created"
    } else {
        "404 Not Found"
    }
}

/// A response as a handler builds it.
#[derive(Debug)]
pub struct Response {
    pub status_code: usize,
    pub headers: Headers,
    pub body: Option<Vec<u8>>,
}

/// What a response holds, as mathematical values.
pub struct ResponseView {
    pub status_code: usize,
    pub headers: Map<Seq<char>, Seq<char>>,
    pub body: Option<Seq<u8>>,
}

impl View for Response {
    type V = ResponseView;

    open spec fn view(&self) -> ResponseView {
        ResponseView {
            status_code: self.status_code,
            headers: self.headers@,
            body: match self.body {
                Some(body) => Some(body@),
                None => None,
            },
        }
    }
}

impl ResponseView {
    /// The bytes of the body; none where there is no body.
    pub open spec fn payload(self) -> Seq<u8> {
        match self.body {
            Some(body) => body,
            None => Seq::empty(),
        }
    }
}

impl Response {
    /// The first line of the response.
    pub fn status_line(&self) -> (r: String)
        requires
            known_status(self.status_code),
        ensures
            r@ == status_line_text(self.status_code),
    {
        let mut line = "HTTP/1.1 ".to_owned();
        line.append(get_status(self.status_code));
        line.append("\r\n");
        line
    }

    /// The header lines of the response, in ascending order of name.
    pub fn headers(&self) -> (r: String)
        ensures
            r@ == header_block(entries_of(self.headers@)),
    {
        let ghost entries = entries_of(self.headers@);
        let mut block = String::new();
        let n = self.headers.len();
        let mut i: usize = 0;
        proof {
            assert(entries.take(0) =~= Seq::<(Seq<char>, Seq<char>)>::empty());
        }
        while i < n
            invariant
                i <= n,
                n == entries.len(),
                entries == entries_of(self.headers@),
                block@ == header_block(entries.take(i as int)),
            decreases n - i,
        {
            proof {
                assert(entries.take(i + 1).drop_last() =~= entries.take(i as int));
            }
            block.append(self.headers.name_at(i).as_str());
            block.append(": ");
            block.append(self.headers.value_at(i).as_str());
            block.append("\r\n");
            i += 1;
        }
        proof {
            assert(entries.take(n as int) =~= entries);
        }
        block
    }

    /// A response with the given status, headers and body.
    pub fn new(status_code: usize, headers: Headers, body: Option<Vec<u8>>) -> (r: Response)
        ensures
            r.status_code == status_code,
            r.headers == headers,
            r.body == body,
    {
        Response { status_code, headers, body }
    }

    /// Sets `Content-Length` to the length of `payload` and writes the
    /// response out with `payload` in place of its body. The body itself
    /// stays as it is.
    pub fn as_bytes_with(&mut self, payload: &[u8]) -> (r: Bytes)
        requires
            known_status(old(self).status_code),
        ensures
            final(self).status_code == old(self).status_code,
            final(self).body == old(self).body,
            final(self).headers@ == sent_headers(old(self).headers@, payload@),
            bytes_contents(r) == wire_bytes(
                old(self).status_code,
                sent_headers(old(self).headers@, payload@),
                payload@,
            ),
    {
        self.headers.insert("Content-Length".to_owned(), decimal(payload.len()));
        let mut output = BytesMut::new();
        output.extend_from_slice(self.status_line().as_str().as_bytes());
        output.extend_from_slice(self.headers().as_str().as_bytes());
        output.extend_from_slice("\r\n".as_bytes());
        output.extend_from_slice(payload);
        output.freeze()
    }

    /// Writes the response out. Where its headers ask for gzip, the body is
    /// compressed first, and `Content-Length` counts the compressed bytes.
    /// Only the compression can fail; the response is then unchanged.
    pub fn as_bytes(&mut self) -> (r: Result<Bytes, EncodingError>)
        requires
            known_status(old(self).status_code),
        ensures
            !wants_gzip(old(self).headers@) ==> r is Ok,
            match r {
                Ok(bytes) => {
                    let payload = encoded_payload(old(self).headers@, old(self)@.payload());
                    &&& final(self).status_code == old(self).status_code
                    &&& final(self).body == old(self).body
                    &&& final(self).headers@ == sent_headers(old(self).headers@, payload)
                    &&& bytes_contents(bytes) == wire_bytes(
                        old(self).status_code,
                        sent_headers(old(self).headers@, payload),
                        payload,
                    )
                },
                Err(_) => *final(self) == *old(self),
            },
    {
        let gzip_wanted = match self.headers.get("Content-Encoding") {
            Some(encoding) => str_eq(encoding.as_str(), "gzip"),
            None => false,
        };
        let body: Vec<u8> = match &self.body {
            Some(body) => slice_to_vec(body.as_slice()),
            None => Vec::new(),
        };
        if gzip_wanted {
            match gzip(body.as_slice()) {
                Ok(stream) => Ok(self.as_bytes_with(stream.as_slice())),
                Err(_) => Err(EncodingError),
            }
        } else {
            Ok(self.as_bytes_with(body.as_slice()))
        }
    }
}

/// The content encoding in which `request` is answered.
pub fn negotiate(app: &AppConfig, request: &Request) -> (r: Option<String>)
    ensures
        match r {
            Some(encoding) => negotiated(request@.headers, app.encodings()) == Some(encoding@),
            None => negotiated(request@.headers, app.encodings()) is None,
        },
{
    match request.headers.get("Accept-Encoding") {
        None => None,
        Some(value) => {
            let requested = split(value.as_str(), ',');
            let ghost all = views(requested@);
            let ghost offered = app.encodings();
            let mut i: usize = 0;
            proof {
                assert(all.skip(0) =~= all);
            }
            while i < requested.len()
                invariant
                    i <= requested.len(),
                    all == views(requested@),
                    offered == app.encodings(),
                    negotiated(request@.headers, offered) == first_offered(all, offered),
                    first_offered(all, offered) == first_offered(all.skip(i as int), offered),
                decreases requested.len() - i,
            {
                let token = trim(requested[i].as_str());
                proof {
                    assert(all.skip(i as int)[0] == requested@[i as int]@);
                    assert(all.skip(i as int).drop_first() =~= all.skip(i + 1));
                }
                if contains(&app.supported_encodings, token.as_str()) {
                    return Some(token);
                }
                i += 1;
            }
            None
        },
    }
}

/// Settles the content encoding of `response` for `request`, and writes the
/// response out: the bytes to send. Only the compression can fail; the
/// response then keeps the `Content-Encoding` that was settled.
pub fn send_response(app: &AppConfig, request: &Request, response: &mut Response) -> (r: Result<
    Bytes,
    EncodingError,
>)
    requires
        known_status(old(response).status_code),
    ensures
        final(response).status_code == old(response).status_code,
        final(response).body == old(response).body,
        ({
            let headers = negotiated_headers(
                old(response).headers@,
                negotiated(request@.headers, app.encodings()),
            );
            let payload = encoded_payload(headers, old(response)@.payload());
            &&& !wants_gzip(headers) ==> r is Ok
            &&& match r {
                Ok(bytes) => {
                    &&& final(response).headers@ == sent_headers(headers, payload)
                    &&& bytes_contents(bytes) == wire_bytes(
                        old(response).status_code,
                        sent_headers(headers, payload),
                        payload,
                    )
                },
                Err(_) => final(response).headers@ == headers,
            }
        }),
{
    match negotiate(app, request) {
        Some(encoding) => {
            response.headers.insert("Content-Encoding".to_owned(), encoding);
        },
        None => {},
    }
    response.as_bytes()
}

/// Where the line of the entry at `i` begins in the block of `entries`;
/// for `i == entries.len()`, where the block ends.
pub open spec fn line_start(entries: Seq<(Seq<char>, Seq<char>)>, i: int) -> int {
    header_block(entries.take(i)).len() as int
}

/// The block of the first `k` entries begins the block of all entries.
pub proof fn lemma_block_of_first_entries(entries: Seq<(Seq<char>, Seq<char>)>, k: int)
    requires
        0 <= k <= entries.len(),
    ensures
        header_block(entries.take(k)).is_prefix_of(header_block(entries)),
    decreases entries.len(),
{
    if k == entries.len() {
        assert(entries.take(k) =~= entries);
    } else {
        assert(entries.drop_last().take(k) =~= entries.take(k));
        lemma_block_of_first_entries(entries.drop_last(), k);
    }
}

/// The line of the entry at `i` stands in the block where `line_start` says,
/// and the next line begins where it ends.
pub proof fn lemma_line_in_block(entries: Seq<(Seq<char>, Seq<char>)>, i: int)
    requires
        0 <= i < entries.len(),
    ensures
        line_start(entries, i) < line_start(entries, i + 1) <= header_block(entries).len(),
        header_block(entries).subrange(line_start(entries, i), line_start(entries, i + 1))
            == header_line_text(entries[i].0, entries[i].1),
{
    reveal_strlit(": ");
    let upto = entries.take(i + 1);
    assert(upto.drop_last() =~= entries.take(i));
    assert(upto.last() == entries[i]);
    lemma_block_of_first_entries(entries, i + 1);
    let line = header_line_text(entries[i].0, entries[i].1);
    let head = header_block(upto);
    let whole = header_block(entries);
    assert(head == header_block(entries.take(i)) + line);
    assert(whole.subrange(0, head.len() as int) =~= head);
    assert(whole.subrange(line_start(entries, i), line_start(entries, i + 1)) =~= head.subrange(
        line_start(entries, i),
        line_start(entries, i + 1),
    ));
    assert(head.subrange(line_start(entries, i), line_start(entries, i + 1)) =~= line);
}

/// Lines begin in the order of their entries.
pub proof fn lemma_line_starts_ascend(entries: Seq<(Seq<char>, Seq<char>)>, i: int, j: int)
    requires
        0 <= i < j <= entries.len(),
    ensures
        line_start(entries, i + 1) <= line_start(entries, j),
    decreases j - i,
{
    if i + 1 < j {
        lemma_line_starts_ascend(entries, i, j - 1);
        lemma_line_in_block(entries, j - 1);
    }
}

/// Header lines go out in ascending order of name: of any two headers of a
/// response, the one whose name sorts first has its line first in the block
/// of header lines, whole and before the line of the other begins.
pub proof fn law_header_lines_ascend(headers: Headers, i: int, j: int)
    requires
        headers.well_formed(),
        0 <= i < j < entries_of(headers@).len(),
    ensures
        ({
            let entries = entries_of(headers@);
            let block = header_block(entries);
            &&& text_lt(entries[i].0, entries[j].0)
            &&& line_start(entries, i) < line_start(entries, i + 1) <= line_start(entries, j)
                < line_start(entries, j + 1) <= block.len()
            &&& block.subrange(line_start(entries, i), line_start(entries, i + 1))
                == header_line_text(entries[i].0, entries[i].1)
            &&& block.subrange(line_start(entries, j), line_start(entries, j + 1))
                == header_line_text(entries[j].0, entries[j].1)
        }),
{
    headers.lemma_is_listed();
    let entries = entries_of(headers@);
    lemma_line_in_block(entries, i);
    lemma_line_in_block(entries, j);
    lemma_line_starts_ascend(entries, i, j);
}

/// `Content-Length` counts the payload: what goes out ends with the payload,
/// and the header that goes out with it announces exactly the number of
/// payload bytes.
pub proof fn law_content_length_counts_payload(
    code: usize,
    headers: Map<Seq<char>, Seq<char>>,
    payload: Seq<u8>,
)
    requires
        payload.len() <= usize::MAX,
    ensures
        ({
            let sent = sent_headers(headers, payload);
            let wire = wire_bytes(code, sent, payload);
            &&& sent.contains_key("Content-Length"@)
            &&& sent["Content-Length"@] == decimal_text(payload.len())
            &&& announced_length(sent["Content-Length"@]) == payload.len()
            &&& wire.len() >= payload.len()
            &&& wire.skip(wire.len() - payload.len()) == payload
        }),
{
    law_announced_length_of_decimal_text(payload.len());
    let sent = sent_headers(headers, payload);
    let wire = wire_bytes(code, sent, payload);
    assert(wire.skip(wire.len() - payload.len()) =~= payload);
}

} // verus!
