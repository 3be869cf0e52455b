//! The route table and the handlers behind it.
//!
//! No handler touches the file system. A handler that needs a file says so
//! in the `Action` it returns, and is called again with the `Event` that
//! answers it, until it returns the response.

use crate::appconfig::AppConfig;
use crate::headers::Headers;
use crate::request::{HttpMethod, Request, RequestView};
use crate::response::{Response, ResponseView};
use crate::text::{find, join, scan_for, skip_chars, slice_chars, starts_with, str_eq, to_chars};
use vstd::prelude::*;
use vstd::slice::slice_to_vec;
use vstd::string::*;
use vstd::utf8::encode_utf8;

verus! {

/// The handlers that a request can be routed to.
#[derive(Debug, Clone, Copy, PartialEq, Eq, Structural)]
pub enum Route {
    Index,
    UserAgent,
    Echo,
    FileGet,
    FilePost,
    NotFound,
}

/// The route of a request: the first line of the table that fits its path.
/// A path is taken as it is written, query and fragment included.
pub open spec fn route_of(method: HttpMethod, path: Seq<char>) -> Route {
    if path == "/"@ {
        Route::Index
    } else if "/user-agent"@.is_prefix_of(path) {
        Route::UserAgent
    } else if "/echo/"@.is_prefix_of(path) {
        Route::Echo
    } else if "/files/"@.is_prefix_of(path) {
        match method {
            HttpMethod::GET => Route::FileGet,
            HttpMethod::POST => Route::FilePost,
        }
    } else {
        Route::NotFound
    }
}

/// The route of `request`.
pub fn route_request(request: &Request) -> (r: Route)
    ensures
        r == route_of(request.method, request.path@),
{
    let path = request.path.as_str();
    if str_eq(path, "/") {
        Route::Index
    } else if starts_with(path, "/user-agent") {
        Route::UserAgent
    } else if starts_with(path, "/echo/") {
        Route::Echo
    } else if starts_with(path, "/files/") {
        match request.method {
            HttpMethod::GET => Route::FileGet,
            HttpMethod::POST => Route::FilePost,
        }
    } else {
        Route::NotFound
    }
}

/// A file to be created.
#[derive(Debug)]
pub struct FileWrite {
    /// The directory to create first, with all its parents, unless empty.
    pub directory: String,
    /// Where the file goes.
    pub path: String,
    /// What the file holds.
    pub contents: Vec<u8>,
}

/// What a handler wants done before it is called again, or its response.
#[derive(Debug)]
pub enum Action {
    /// The request is answered with this response.
    Respond(Response),
    /// Find out whether a file exists at this path; answer with `Exists`.
    Probe(String),
    /// Read the file at this path; answer with `Contents`.
    Read(String),
    /// Create this file; answer with `Written`.
    Write(FileWrite),
}

/// What the file system answered.
#[derive(Debug)]
pub enum Event {
    /// Nothing yet: the handler is called for the first time.
    Start,
    /// Whether the probed file exists.
    Exists(bool),
    /// The bytes of the file that was read.
    Contents(Vec<u8>),
    /// The file was created.
    Written,
}

/// A file to be created, as mathematical values.
pub struct FileWriteView {
    pub directory: Seq<char>,
    pub path: Seq<char>,
    pub contents: Seq<u8>,
}

/// An action, as mathematical values.
pub enum ActionView {
    Respond(ResponseView),
    Probe(Seq<char>),
    Read(Seq<char>),
    Write(FileWriteView),
}

/// An event, as mathematical values.
pub enum EventView {
    Start,
    Exists(bool),
    Contents(Seq<u8>),
    Written,
}

impl View for FileWrite {
    type V = FileWriteView;

    open spec fn view(&self) -> FileWriteView {
        FileWriteView { directory: self.directory@, path: self.path@, contents: self.contents@ }
    }
}

impl View for Action {
    type V = ActionView;

    open spec fn view(&self) -> ActionView {
        match *self {
            Action::Respond(response) => ActionView::Respond(response@),
            Action::Probe(path) => ActionView::Probe(path@),
            Action::Read(path) => ActionView::Read(path@),
            Action::Write(write) => ActionView::Write(write@),
        }
    }
}

impl View for Event {
    type V = EventView;

    open spec fn view(&self) -> EventView {
        match *self {
            Event::Start => EventView::Start,
            Event::Exists(exists) => EventView::Exists(exists),
            Event::Contents(contents) => EventView::Contents(contents@),
            Event::Written => EventView::Written,
        }
    }
}

/// A response with status `code`, a `Content-Type` header if a type is
/// given, no other header, and `body`.
pub open spec fn response_of(
    code: usize,
    content_type: Option<Seq<char>>,
    body: Option<Seq<u8>>,
) -> ResponseView {
    ResponseView {
        status_code: code,
        headers: match content_type {
            Some(content_type) => Map::empty().insert("Content-Type"@, content_type),
            None => Map::empty(),
        },
        body,
    }
}

/// The text that `/echo/` sends back: the path segment behind the prefix,
/// which ends before the next `/`.
pub open spec fn echo_of(path: Seq<char>) -> Seq<char> {
    let rest = path.skip(6);
    rest.take(find(rest, '/', 0))
}

/// The body that `/user-agent` sends back: the bytes of the `User-Agent`
/// header; none when the header is missing or empty.
pub open spec fn user_agent_body(headers: Map<Seq<char>, Seq<char>>) -> Option<Seq<u8>> {
    if headers.contains_key("User-Agent"@) && headers["User-Agent"@].len() > 0 {
        Some(encode_utf8(headers["User-Agent"@]))
    } else {
        None
    }
}

/// Where the file of a `/files/` request lies: the base directory, followed
/// at once by what stands behind the prefix.
pub open spec fn file_path_of(directory: Seq<char>, path: Seq<char>) -> Seq<char> {
    directory + path.skip(7)
}

/// What the handler of `GET /files/` does on `event`. It probes the file;
/// a file that is missing is answered with 404, one that exists is read and
/// sent. An event that answers none of these actions starts over.
pub open spec fn file_get_step(directory: Seq<char>, path: Seq<char>, event: EventView) -> ActionView {
    match event {
        EventView::Exists(true) => ActionView::Read(file_path_of(directory, path)),
        EventView::Exists(false) => ActionView::Respond(response_of(404, None, None)),
        EventView::Contents(contents) => ActionView::Respond(
            response_of(200, Some("application/octet-stream"@), Some(contents)),
        ),
        _ => ActionView::Probe(file_path_of(directory, path)),
    }
}

/// What the handler of `POST /files/` does on `event`. It probes the file;
/// a file that exists is left alone and answered with 200, one that is
/// missing is created with the request body as its contents and answered
/// with 201. An event that answers none of these actions starts over.
pub open spec fn file_post_step(
    directory: Seq<char>,
    path: Seq<char>,
    body: Option<Seq<u8>>,
    event: EventView,
) -> ActionView {
    match event {
        EventView::Exists(true) => ActionView::Respond(
            response_of(200, Some("application/octet-stream"@), None),
        ),
        EventView::Exists(false) => ActionView::Write(
            FileWriteView {
                directory,
                path: file_path_of(directory, path),
                contents: match body {
                    Some(body) => body,
                    None => Seq::empty(),
                },
            },
        ),
        EventView::Written => ActionView::Respond(response_of(201, None, None)),
        _ => ActionView::Probe(file_path_of(directory, path)),
    }
}

/// What the server does for `request` on `event`, by its route.
pub open spec fn step(directory: Seq<char>, request: RequestView, event: EventView) -> ActionView {
    match route_of(request.method, request.path) {
        Route::Index => ActionView::Respond(response_of(200, Some("text/plain"@), None)),
        Route::UserAgent => ActionView::Respond(
            response_of(200, Some("text/plain"@), user_agent_body(request.headers)),
        ),
        Route::Echo => ActionView::Respond(
            response_of(200, Some("text/plain"@), Some(encode_utf8(echo_of(request.path)))),
        ),
        Route::FileGet => file_get_step(directory, request.path, event),
        Route::FilePost => file_post_step(directory, request.path, request.body, event),
        Route::NotFound => ActionView::Respond(response_of(404, None, None)),
    }
}

/// A response with one header, `Content-Type`.
fn typed_response(code: usize, content_type: &str, body: Option<Vec<u8>>) -> (r: Response)
    ensures
        r@ == response_of(
            code,
            Some(content_type@),
            match body {
                Some(body) => Some(body@),
                None => None,
            },
        ),
{
    let mut headers = Headers::new();
    headers.insert("Content-Type".to_owned(), content_type.to_owned());
    Response::new(code, headers, body)
}

/// A response without headers or body.
fn bare_response(code: usize) -> (r: Response)
    ensures
        r@ == response_of(code, None, None),
{
    Response::new(code, Headers::new(), None)
}

/// Answers `/`: 200, no body.
pub fn handle_index() -> (r: Response)
    ensures
        r@ == response_of(200, Some("text/plain"@), None),
{
    typed_response(200, "text/plain", None)
}

/// Answers a path that no route fits: 404, no body.
pub fn handler_404() -> (r: Response)
    ensures
        r@ == response_of(404, None, None),
{
    bare_response(404)
}

/// Answers `/echo/<text>` with the text.
pub fn handle_echo(request: &Request) -> (r: Response)
    requires
        "/echo/"@.is_prefix_of(request.path@),
    ensures
        r@ == response_of(200, Some("text/plain"@), Some(encode_utf8(echo_of(request.path@)))),
{
    proof {
        reveal_strlit("/echo/");
    }
    let rest = skip_chars(request.path.as_str(), 6);
    let chars = to_chars(rest.as_str());
    let end = scan_for(&chars, '/', 0);
    let text = slice_chars(rest.as_str(), 0, end);
    let body = slice_to_vec(text.as_str().as_bytes());
    typed_response(200, "text/plain", Some(body))
}

/// Answers `/user-agent` with the `User-Agent` header of the request.
pub fn handle_user_agent(request: &Request) -> (r: Response)
    ensures
        r@ == response_of(200, Some("text/plain"@), user_agent_body(request@.headers)),
{
    let body = match request.headers.get("User-Agent") {
        Some(agent) => if agent.as_str().unicode_len() > 0 {
            Some(slice_to_vec(agent.as_str().as_bytes()))
        } else {
            None
        },
        None => None,
    };
    typed_response(200, "text/plain", body)
}

/// Where the file of a `/files/` request lies.
pub fn file_path(app: &AppConfig, request: &Request) -> (r: String)
    requires
        "/files/"@.is_prefix_of(request.path@),
    ensures
        r@ == file_path_of(app.directory_text(), request.path@),
{
    proof {
        reveal_strlit("/files/");
    }
    let name = skip_chars(request.path.as_str(), 7);
    match &app.directory {
        Some(directory) => join(directory.as_str(), name.as_str()),
        None => name,
    }
}

/// Handles `GET /files/<name>`, one step at a time.
pub fn handle_file_get(app: &AppConfig, request: &Request, event: Event) -> (r: Action)
    requires
        "/files/"@.is_prefix_of(request.path@),
    ensures
        r@ == file_get_step(app.directory_text(), request.path@, event@),
{
    match event {
        Event::Exists(true) => Action::Read(file_path(app, request)),
        Event::Exists(false) => Action::Respond(bare_response(404)),
        Event::Contents(contents) => Action::Respond(
            typed_response(200, "application/octet-stream", Some(contents)),
        ),
        _ => Action::Probe(file_path(app, request)),
    }
}

/// Handles `POST /files/<name>`, one step at a time.
pub fn handle_file_post(app: &AppConfig, request: &Request, event: Event) -> (r: Action)
    requires
        "/files/"@.is_prefix_of(request.path@),
    ensures
        r@ == file_post_step(app.directory_text(), request.path@, request@.body, event@),
{
    match event {
        Event::Exists(true) => Action::Respond(
            typed_response(200, "application/octet-stream", None),
        ),
        Event::Exists(false) => {
            let directory = match &app.directory {
                Some(directory) => directory.clone(),
                None => String::new(),
            };
            let contents = match &request.body {
                Some(body) => slice_to_vec(body.as_slice()),
                None => Vec::new(),
            };
            Action::Write(FileWrite { directory, path: file_path(app, request), contents })
        },
        Event::Written => Action::Respond(bare_response(201)),
        _ => Action::Probe(file_path(app, request)),
    }
}

/// Does the next step for `request`: routes it, and lets the handler of its
/// route act on `event`.
pub fn handle(app: &AppConfig, request: &Request, event: Event) -> (r: Action)
    ensures
        r@ == step(app.directory_text(), request@, event@),
{
    match route_request(request) {
        Route::Index => Action::Respond(handle_index()),
        Route::UserAgent => Action::Respond(handle_user_agent(request)),
        Route::Echo => Action::Respond(handle_echo(request)),
        Route::FileGet => handle_file_get(app, request, event),
        Route::FilePost => handle_file_post(app, request, event),
        Route::NotFound => Action::Respond(handler_404()),
    }
}

/// What the file system answers to `action`, and the files that it holds
/// afterwards. Files are told apart by their path.
pub open spec fn answer(files: Map<Seq<char>, Seq<u8>>, action: ActionView) -> (
    Map<Seq<char>, Seq<u8>>,
    EventView,
) {
    match action {
        ActionView::Probe(path) => (files, EventView::Exists(files.contains_key(path))),
        ActionView::Read(path) => (files, EventView::Contents(files[path])),
        ActionView::Write(write) => (files.insert(write.path, write.contents), EventView::Written),
        ActionView::Respond(_) => (files, EventView::Start),
    }
}

/// The files and the response that result when the server works on
/// `request` from `event` on and each of its actions is carried out on
/// `files`, for at most `actions` actions.
pub open spec fn served_from(
    files: Map<Seq<char>, Seq<u8>>,
    directory: Seq<char>,
    request: RequestView,
    event: EventView,
    actions: nat,
) -> (Map<Seq<char>, Seq<u8>>, Option<ResponseView>)
    decreases actions,
{
    match step(directory, request, event) {
        ActionView::Respond(response) => (files, Some(response)),
        action => if actions == 0 {
            (files, None)
        } else {
            served_from(
                answer(files, action).0,
                directory,
                request,
                answer(files, action).1,
                (actions - 1) as nat,
            )
        },
    }
}

/// The files and the response that result when the server works on
/// `request` over `files`. No request takes more than two actions.
pub open spec fn served(
    files: Map<Seq<char>, Seq<u8>>,
    directory: Seq<char>,
    request: RequestView,
) -> (Map<Seq<char>, Seq<u8>>, Option<ResponseView>) {
    served_from(files, directory, request, EventView::Start, 2)
}

/// Every request is answered.
pub proof fn law_every_request_is_answered(
    files: Map<Seq<char>, Seq<u8>>,
    directory: Seq<char>,
    request: RequestView,
)
    ensures
        served(files, directory, request).1 is Some,
{
    reveal_with_fuel(served_from, 3);
}

/// Reading a file is repeatable: `GET /files/<name>` leaves the files as
/// they are, so that the same request, served again, gets the same
/// response.
pub proof fn law_file_get_is_repeatable(
    files: Map<Seq<char>, Seq<u8>>,
    directory: Seq<char>,
    request: RequestView,
)
    requires
        route_of(request.method, request.path) == Route::FileGet,
    ensures
        served(files, directory, request).0 == files,
        served(served(files, directory, request).0, directory, request) == served(
            files,
            directory,
            request,
        ),
        served(files, directory, request).1 == Some(
            if files.contains_key(file_path_of(directory, request.path)) {
                response_of(
                    200,
                    Some("application/octet-stream"@),
                    Some(files[file_path_of(directory, request.path)]),
                )
            } else {
                response_of(404, None, None)
            },
        ),
{
    reveal_with_fuel(served_from, 3);
}

/// What is stored comes back: `POST /files/<name>` where no file exists
/// creates the file with the body of the request and is answered with 201
/// and no body; `GET` on the same path is then answered with 200 and the
/// stored bytes.
pub proof fn law_stored_file_is_served(
    files: Map<Seq<char>, Seq<u8>>,
    directory: Seq<char>,
    post: RequestView,
    get: RequestView,
)
    requires
        route_of(post.method, post.path) == Route::FilePost,
        route_of(get.method, get.path) == Route::FileGet,
        get.path == post.path,
        !files.contains_key(file_path_of(directory, post.path)),
    ensures
        ({
            let contents = match post.body {
                Some(body) => body,
                None => Seq::empty(),
            };
            let stored = files.insert(file_path_of(directory, post.path), contents);
            &&& served(files, directory, post) == (stored, Some(response_of(201, None, None)))
            &&& served(stored, directory, get) == (
                stored,
                Some(response_of(200, Some("application/octet-stream"@), Some(contents))),
            )
        }),
{
    reveal_with_fuel(served_from, 3);
}

/// Storing never overwrites: `POST /files/<name>` where a file exists is
/// answered with 200 and no body, whatever the body of the request, and
/// leaves the files as they are.
pub proof fn law_existing_file_is_kept(
    files: Map<Seq<char>, Seq<u8>>,
    directory: Seq<char>,
    request: RequestView,
)
    requires
        route_of(request.method, request.path) == Route::FilePost,
        files.contains_key(file_path_of(directory, request.path)),
    ensures
        served(files, directory, request) == (
            files,
            Some(response_of(200, Some("application/octet-stream"@), None)),
        ),
{
    reveal_with_fuel(served_from, 3);
}

/// A path that no route fits is answered with 404 and no body, whatever the
/// method and whatever the files.
pub proof fn law_unrouted_path_is_not_found(
    files: Map<Seq<char>, Seq<u8>>,
    directory: Seq<char>,
    request: RequestView,
)
    requires
        request.path != "/"@,
        !"/user-agent"@.is_prefix_of(request.path),
        !"/echo/"@.is_prefix_of(request.path),
        !"/files/"@.is_prefix_of(request.path),
    ensures
        served(files, directory, request) == (files, Some(response_of(404, None, None))),
{
    reveal_with_fuel(served_from, 3);
}

} // verus!
