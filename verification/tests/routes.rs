use flate2::read::GzDecoder;
use http_server::request::{ParseError, Parsing};
use http_server::response::send_response;
use http_server::routes::{
    file_path, handle, handle_echo, handle_file_get, handle_file_post, handle_index,
    handle_user_agent, handler_404, route_request, Action, Event, Route,
};
use http_server::{AppConfig, Headers, HttpMethod, Request, Response};
use std::collections::BTreeMap;
use std::io::Read;

type Files = BTreeMap<String, Vec<u8>>;

fn request(method: HttpMethod, path: &str, headers: &[(&str, &str)], body: Option<&[u8]>) -> Request {
    let mut all = Headers::new();
    for (name, value) in headers {
        all.insert(String::from(*name), String::from(*value));
    }
    Request {
        method,
        path: String::from(path),
        protocol: String::from("HTTP/1.1"),
        headers: all,
        body: body.map(|b| b.to_vec()),
    }
}

fn get(path: &str) -> Request {
    request(HttpMethod::GET, path, &[], None)
}

fn post(path: &str, body: &[u8]) -> Request {
    request(HttpMethod::POST, path, &[], Some(body))
}

fn answer(files: &mut Files, action: Action) -> Result<Response, Event> {
    match action {
        Action::Respond(response) => Ok(response),
        Action::Probe(path) => Err(Event::Exists(files.contains_key(&path))),
        Action::Read(path) => Err(Event::Contents(files[&path].clone())),
        Action::Write(write) => {
            files.insert(write.path, write.contents);
            Err(Event::Written)
        }
    }
}

fn serve(files: &mut Files, app: &AppConfig, request: &Request) -> Response {
    let mut event = Event::Start;
    for _ in 0..3 {
        match answer(files, handle(app, request, event)) {
            Ok(response) => return response,
            Err(next) => event = next,
        }
    }
    panic!("no response after three steps");
}

fn wire(files: &mut Files, app: &AppConfig, request: &Request) -> Vec<u8> {
    let mut response = serve(files, app, request);
    send_response(app, request, &mut response).unwrap().to_vec()
}

fn only_content_type(response: &Response, content_type: &str) {
    assert_eq!(response.headers.len(), 1);
    assert_eq!(response.headers.get("Content-Type").unwrap(), content_type);
}

#[test]
fn route_table() {
    assert_eq!(route_request(&get("/")), Route::Index);
    assert_eq!(route_request(&post("/", b"")), Route::Index);
    assert_eq!(route_request(&get("/user-agent")), Route::UserAgent);
    assert_eq!(route_request(&get("/user-agent/more")), Route::UserAgent);
    assert_eq!(route_request(&get("/user-agents")), Route::UserAgent);
    assert_eq!(route_request(&post("/user-agent", b"")), Route::UserAgent);
    assert_eq!(route_request(&get("/echo/abc")), Route::Echo);
    assert_eq!(route_request(&get("/echo/")), Route::Echo);
    assert_eq!(route_request(&post("/echo/abc", b"")), Route::Echo);
    assert_eq!(route_request(&get("/files/foo.txt")), Route::FileGet);
    assert_eq!(route_request(&get("/files/")), Route::FileGet);
    assert_eq!(route_request(&post("/files/foo.txt", b"")), Route::FilePost);
}

#[test]
fn unrouted_paths() {
    for path in [
        "/echo", "/files", "/user-agen", "/index.html", "//", "", "echo/abc", "/Echo/abc",
        "/FILES/a", " /", "/?", "/x/echo/abc", "/unknown",
    ] {
        assert_eq!(route_request(&get(path)), Route::NotFound, "{}", path);
        assert_eq!(route_request(&post(path, b"x")), Route::NotFound, "{}", path);
    }
}

#[test]
fn unrouted_path_is_answered_with_404() {
    let app = AppConfig::new(None);
    let mut files = Files::new();
    for request in [get("/unknown"), post("/unknown", b"body"), get("/echo"), post("/files", b"")] {
        let response = serve(&mut files, &app, &request);
        assert_eq!(response.status_code, 404);
        assert_eq!(response.headers.len(), 0);
        assert_eq!(response.body, None);
        assert_eq!(
            wire(&mut files, &app, &request),
            b"HTTP/1.1 404 Not Found\r\nContent-Length: 0\r\n\r\n".to_vec()
        );
    }
    assert!(files.is_empty());
}

#[test]
fn index_is_answered_with_200() {
    let response = handle_index();
    assert_eq!(response.status_code, 200);
    only_content_type(&response, "text/plain");
    assert_eq!(response.body, None);
    let app = AppConfig::new(None);
    assert_eq!(
        wire(&mut Files::new(), &app, &get("/")),
        b"HTTP/1.1 200 OK\r\nContent-Length: 0\r\nContent-Type: text/plain\r\n\r\n".to_vec()
    );
}

#[test]
fn not_found_handler() {
    let response = handler_404();
    assert_eq!(response.status_code, 404);
    assert_eq!(response.headers.len(), 0);
    assert_eq!(response.body, None);
}

#[test]
fn echo_sends_the_segment_back() {
    let response = handle_echo(&get("/echo/abc"));
    assert_eq!(response.status_code, 200);
    only_content_type(&response, "text/plain");
    assert_eq!(response.body, Some(b"abc".to_vec()));
    let app = AppConfig::new(None);
    assert_eq!(
        wire(&mut Files::new(), &app, &get("/echo/abc")),
        b"HTTP/1.1 200 OK\r\nContent-Length: 3\r\nContent-Type: text/plain\r\n\r\nabc".to_vec()
    );
}

#[test]
fn echo_with_gzip() {
    let app = AppConfig::new(None);
    let request = request(HttpMethod::GET, "/echo/abc", &[("Accept-Encoding", "gzip")], None);
    let out = wire(&mut Files::new(), &app, &request);
    let at = out.windows(4).position(|w| w == b"\r\n\r\n").unwrap();
    let head = String::from_utf8(out[..at + 4].to_vec()).unwrap();
    let payload = &out[at + 4..];
    let mut text = Vec::new();
    GzDecoder::new(payload).read_to_end(&mut text).unwrap();
    assert_eq!(text, b"abc".to_vec());
    assert_eq!(
        head,
        format!(
            "HTTP/1.1 200 OK\r\nContent-Encoding: gzip\r\nContent-Length: {}\r\nContent-Type: text/plain\r\n\r\n",
            payload.len()
        )
    );
}

#[test]
fn echo_ends_at_the_next_slash() {
    assert_eq!(handle_echo(&get("/echo/abc/def")).body, Some(b"abc".to_vec()));
    assert_eq!(handle_echo(&get("/echo//def")).body, Some(Vec::new()));
    assert_eq!(handle_echo(&get("/echo/")).body, Some(Vec::new()));
    assert_eq!(handle_echo(&get("/echo/a?b=c#d")).body, Some(b"a?b=c#d".to_vec()));
    assert_eq!(handle_echo(&get("/echo/gr\u{fc}n")).body, Some("gr\u{fc}n".as_bytes().to_vec()));
}

#[test]
fn user_agent_is_sent_back() {
    let request =
        request(HttpMethod::GET, "/user-agent", &[("User-Agent", "test-agent/1.0")], None);
    let response = handle_user_agent(&request);
    assert_eq!(response.status_code, 200);
    only_content_type(&response, "text/plain");
    assert_eq!(response.body, Some(b"test-agent/1.0".to_vec()));
    let app = AppConfig::new(None);
    assert_eq!(
        wire(&mut Files::new(), &app, &request),
        b"HTTP/1.1 200 OK\r\nContent-Length: 14\r\nContent-Type: text/plain\r\n\r\ntest-agent/1.0"
            .to_vec()
    );
}

#[test]
fn user_agent_missing_or_empty_gives_no_body() {
    let app = AppConfig::new(None);
    for request in [
        get("/user-agent"),
        request(HttpMethod::GET, "/user-agent", &[("User-Agent", "")], None),
        request(HttpMethod::GET, "/user-agent", &[("user-agent", "lower")], None),
    ] {
        let response = handle_user_agent(&request);
        assert_eq!(response.status_code, 200);
        assert_eq!(response.body, None);
        assert_eq!(
            wire(&mut Files::new(), &app, &request),
            b"HTTP/1.1 200 OK\r\nContent-Length: 0\r\nContent-Type: text/plain\r\n\r\n".to_vec()
        );
    }
}

#[test]
fn file_path_appends_name_to_directory() {
    let request = get("/files/foo.txt");
    assert_eq!(file_path(&AppConfig::new(None), &request), "foo.txt");
    assert_eq!(file_path(&AppConfig::new(Some(String::from("/tmp/"))), &request), "/tmp/foo.txt");
    assert_eq!(file_path(&AppConfig::new(Some(String::from("/tmp"))), &request), "/tmpfoo.txt");
    assert_eq!(
        file_path(&AppConfig::new(Some(String::from("/srv/"))), &get("/files/a/../b")),
        "/srv/a/../b"
    );
    assert_eq!(file_path(&AppConfig::new(Some(String::from("/srv/"))), &get("/files/")), "/srv/");
}

#[test]
fn file_get_steps() {
    let app = AppConfig::new(Some(String::from("/data/")));
    let request = get("/files/foo.txt");
    assert!(matches!(
        handle_file_get(&app, &request, Event::Start),
        Action::Probe(path) if path == "/data/foo.txt"
    ));
    assert!(matches!(
        handle_file_get(&app, &request, Event::Exists(true)),
        Action::Read(path) if path == "/data/foo.txt"
    ));
    match handle_file_get(&app, &request, Event::Exists(false)) {
        Action::Respond(response) => {
            assert_eq!(response.status_code, 404);
            assert_eq!(response.headers.len(), 0);
            assert_eq!(response.body, None);
        }
        other => panic!("{:?}", other),
    }
    match handle_file_get(&app, &request, Event::Contents(b"hello".to_vec())) {
        Action::Respond(response) => {
            assert_eq!(response.status_code, 200);
            only_content_type(&response, "application/octet-stream");
            assert_eq!(response.body, Some(b"hello".to_vec()));
        }
        other => panic!("{:?}", other),
    }
    assert!(matches!(
        handle_file_get(&app, &request, Event::Written),
        Action::Probe(path) if path == "/data/foo.txt"
    ));
}

#[test]
fn file_post_steps() {
    let app = AppConfig::new(Some(String::from("/data/")));
    let request = post("/files/foo.txt", b"hello");
    assert!(matches!(
        handle_file_post(&app, &request, Event::Start),
        Action::Probe(path) if path == "/data/foo.txt"
    ));
    match handle_file_post(&app, &request, Event::Exists(true)) {
        Action::Respond(response) => {
            assert_eq!(response.status_code, 200);
            only_content_type(&response, "application/octet-stream");
            assert_eq!(response.body, None);
        }
        other => panic!("{:?}", other),
    }
    match handle_file_post(&app, &request, Event::Exists(false)) {
        Action::Write(write) => {
            assert_eq!(write.directory, "/data/");
            assert_eq!(write.path, "/data/foo.txt");
            assert_eq!(write.contents, b"hello".to_vec());
        }
        other => panic!("{:?}", other),
    }
    match handle_file_post(&app, &request, Event::Written) {
        Action::Respond(response) => {
            assert_eq!(response.status_code, 201);
            assert_eq!(response.headers.len(), 0);
            assert_eq!(response.body, None);
        }
        other => panic!("{:?}", other),
    }
    assert!(matches!(
        handle_file_post(&app, &request, Event::Contents(Vec::new())),
        Action::Probe(path) if path == "/data/foo.txt"
    ));
}

#[test]
fn file_post_without_directory_or_body() {
    let app = AppConfig::new(None);
    let request = request(HttpMethod::POST, "/files/empty", &[], None);
    match handle_file_post(&app, &request, Event::Exists(false)) {
        Action::Write(write) => {
            assert_eq!(write.directory, "");
            assert_eq!(write.path, "empty");
            assert_eq!(write.contents, Vec::<u8>::new());
        }
        other => panic!("{:?}", other),
    }
}

#[test]
fn post_then_get_round_trip() {
    let app = AppConfig::new(Some(String::from("/tmp/data/")));
    let mut files = Files::new();
    assert_eq!(
        wire(&mut files, &app, &post("/files/foo.txt", b"hello")),
        b"HTTP/1.1 201 Created\r\nContent-Length: 0\r\n\r\n".to_vec()
    );
    assert_eq!(files.len(), 1);
    assert_eq!(files["/tmp/data/foo.txt"], b"hello".to_vec());
    assert_eq!(
        wire(&mut files, &app, &get("/files/foo.txt")),
        b"HTTP/1.1 200 OK\r\nContent-Length: 5\r\nContent-Type: application/octet-stream\r\n\r\nhello"
            .to_vec()
    );
}

#[test]
fn post_to_existing_file_changes_nothing() {
    let app = AppConfig::new(None);
    let mut files = Files::new();
    files.insert(String::from("foo.txt"), b"before".to_vec());
    for body in [&b"after"[..], &b""[..], &b"before"[..]] {
        let response = serve(&mut files, &app, &post("/files/foo.txt", body));
        assert_eq!(response.status_code, 200);
        only_content_type(&response, "application/octet-stream");
        assert_eq!(response.body, None);
        assert_eq!(files.len(), 1);
        assert_eq!(files["foo.txt"], b"before".to_vec());
    }
    assert_eq!(
        wire(&mut files, &app, &post("/files/foo.txt", b"after")),
        b"HTTP/1.1 200 OK\r\nContent-Length: 0\r\nContent-Type: application/octet-stream\r\n\r\n"
            .to_vec()
    );
}

#[test]
fn get_of_a_file_is_repeatable() {
    let app = AppConfig::new(None);
    let mut files = Files::new();
    files.insert(String::from("a.bin"), vec![0, 159, 146, 150]);
    let first = wire(&mut files, &app, &get("/files/a.bin"));
    let second = wire(&mut files, &app, &get("/files/a.bin"));
    assert_eq!(first, second);
    assert_eq!(
        first,
        b"HTTP/1.1 200 OK\r\nContent-Length: 4\r\nContent-Type: application/octet-stream\r\n\r\n\x00\x9f\x92\x96"
            .to_vec()
    );
    let missing = wire(&mut files, &app, &get("/files/none"));
    assert_eq!(missing, wire(&mut files, &app, &get("/files/none")));
    assert_eq!(missing, b"HTTP/1.1 404 Not Found\r\nContent-Length: 0\r\n\r\n".to_vec());
    assert_eq!(files.len(), 1);
}

#[test]
fn get_of_an_empty_file_has_an_empty_body() {
    let app = AppConfig::new(None);
    let mut files = Files::new();
    files.insert(String::from("empty"), Vec::new());
    let response = serve(&mut files, &app, &get("/files/empty"));
    assert_eq!(response.status_code, 200);
    assert_eq!(response.body, Some(Vec::new()));
}

#[test]
fn post_without_body_stores_an_empty_file() {
    let app = AppConfig::new(None);
    let mut files = Files::new();
    let response = serve(&mut files, &app, &request(HttpMethod::POST, "/files/e", &[], None));
    assert_eq!(response.status_code, 201);
    assert_eq!(files["e"], Vec::<u8>::new());
}

#[test]
fn parsed_request_is_served() {
    let app = AppConfig::new(None);
    let mut files = Files::new();
    let mut state = Parsing::new();
    for line in ["POST /files/note HTTP/1.1\r\n", "Content-Length: 4\r\n", "\r\n"] {
        state = state.feed_line(line).unwrap();
    }
    let request = state.feed_body(b"data".to_vec()).unwrap().into_request().unwrap();
    assert_eq!(
        wire(&mut files, &app, &request),
        b"HTTP/1.1 201 Created\r\nContent-Length: 0\r\n\r\n".to_vec()
    );
    assert_eq!(files["note"], b"data".to_vec());
}

#[test]
fn request_line_without_version_gets_no_response() {
    let refused = Parsing::new().feed_line("GET /echo/abc\r\n");
    assert!(matches!(refused, Err(ParseError::MalformedRequestLine)));
}
