use http_server::request::{
    body_length, parse_header_line, parse_request_line, HttpMethod, ParseError, Parsing, Read,
    Request,
};
use http_server::Headers;

fn feed_lines(lines: &[&str]) -> Result<Parsing, ParseError> {
    let mut state = Parsing::new();
    for line in lines {
        state = state.feed_line(line)?;
    }
    Ok(state)
}

fn complete(lines: &[&str]) -> Request {
    match feed_lines(lines) {
        Ok(Parsing::Complete(request)) => request,
        other => panic!("not complete: {:?}", other),
    }
}

fn headers_of(pairs: &[(&str, &str)]) -> Headers {
    let mut headers = Headers::new();
    for (name, value) in pairs {
        headers.insert(String::from(*name), String::from(*value));
    }
    headers
}

#[test]
fn method_from_text() {
    assert_eq!(HttpMethod::try_from("GET"), Ok(HttpMethod::GET));
    assert_eq!(HttpMethod::try_from("POST"), Ok(HttpMethod::POST));
    assert_eq!(HttpMethod::try_from("PUT"), Err(ParseError::UnsupportedMethod));
    assert_eq!(HttpMethod::try_from("get"), Err(ParseError::UnsupportedMethod));
    assert_eq!(HttpMethod::try_from(""), Err(ParseError::UnsupportedMethod));
    assert_eq!(HttpMethod::try_from("GETS"), Err(ParseError::UnsupportedMethod));
}

#[test]
fn request_line_with_three_words() {
    assert_eq!(
        parse_request_line("GET /index.html HTTP/1.1\r\n"),
        Ok((HttpMethod::GET, String::from("/index.html"), String::from("HTTP/1.1")))
    );
    assert_eq!(
        parse_request_line("POST /files/a HTTP/1.0"),
        Ok((HttpMethod::POST, String::from("/files/a"), String::from("HTTP/1.0")))
    );
}

#[test]
fn request_line_with_two_words_is_malformed() {
    assert_eq!(parse_request_line("GET /\r\n"), Err(ParseError::MalformedRequestLine));
    assert!(matches!(
        Parsing::new().feed_line("GET /index.html\r\n"),
        Err(ParseError::MalformedRequestLine)
    ));
}

#[test]
fn request_line_without_words_is_malformed() {
    assert_eq!(parse_request_line(""), Err(ParseError::MalformedRequestLine));
    assert_eq!(parse_request_line("\r\n"), Err(ParseError::MalformedRequestLine));
    assert_eq!(parse_request_line("  \t "), Err(ParseError::MalformedRequestLine));
    assert_eq!(parse_request_line("GET"), Err(ParseError::MalformedRequestLine));
}

#[test]
fn unknown_method_is_unsupported() {
    assert_eq!(parse_request_line("PUT / HTTP/1.1\r\n"), Err(ParseError::UnsupportedMethod));
    assert_eq!(parse_request_line("DELETE /x HTTP/1.1"), Err(ParseError::UnsupportedMethod));
}

#[test]
fn method_is_judged_before_the_word_count() {
    assert_eq!(parse_request_line("FOO /"), Err(ParseError::UnsupportedMethod));
    assert_eq!(parse_request_line("FOO"), Err(ParseError::UnsupportedMethod));
}

#[test]
fn request_line_words_beyond_the_third_are_ignored() {
    assert_eq!(
        parse_request_line("GET / HTTP/1.1 extra words"),
        Ok((HttpMethod::GET, String::from("/"), String::from("HTTP/1.1")))
    );
}

#[test]
fn request_line_splits_on_any_whitespace() {
    assert_eq!(
        parse_request_line("  GET\t\t/a\u{a0}HTTP/1.1\u{2003}\r\n"),
        Ok((HttpMethod::GET, String::from("/a"), String::from("HTTP/1.1")))
    );
}

#[test]
fn header_line_is_split_at_first_colon_and_trimmed() {
    assert_eq!(
        parse_header_line("Host: localhost:4221\r\n"),
        Some((String::from("Host"), String::from("localhost:4221")))
    );
    assert_eq!(
        parse_header_line("  User-Agent  :   curl/8.0  \r\n"),
        Some((String::from("User-Agent"), String::from("curl/8.0")))
    );
    assert_eq!(parse_header_line("Empty:\r\n"), Some((String::from("Empty"), String::new())));
    assert_eq!(parse_header_line(": v"), Some((String::new(), String::from("v"))));
    assert_eq!(parse_header_line(":"), Some((String::new(), String::new())));
}

#[test]
fn header_line_without_colon_gives_nothing() {
    assert_eq!(parse_header_line("no separator here\r\n"), None);
    assert_eq!(parse_header_line(""), None);
}

#[test]
fn body_length_reads_content_length() {
    assert_eq!(body_length(&headers_of(&[("Content-Length", "5")])), 5);
    assert_eq!(body_length(&headers_of(&[("Content-Length", "0")])), 0);
    assert_eq!(body_length(&headers_of(&[("Content-Length", "007")])), 7);
    assert_eq!(body_length(&headers_of(&[("Content-Length", "+12")])), 12);
    assert_eq!(body_length(&headers_of(&[("Content-Length", "1234567")])), 1234567);
}

#[test]
fn body_length_of_other_text_is_zero() {
    assert_eq!(body_length(&headers_of(&[])), 0);
    assert_eq!(body_length(&headers_of(&[("Content-Length", "abc")])), 0);
    assert_eq!(body_length(&headers_of(&[("Content-Length", "")])), 0);
    assert_eq!(body_length(&headers_of(&[("Content-Length", "+")])), 0);
    assert_eq!(body_length(&headers_of(&[("Content-Length", "-5")])), 0);
    assert_eq!(body_length(&headers_of(&[("Content-Length", "5 ")])), 0);
    assert_eq!(body_length(&headers_of(&[("Content-Length", "1_000")])), 0);
    assert_eq!(body_length(&headers_of(&[("Content-Length", "12a")])), 0);
    assert_eq!(body_length(&headers_of(&[("Content-Length", "++1")])), 0);
    assert_eq!(body_length(&headers_of(&[("content-length", "5")])), 0);
}

#[test]
fn body_length_at_the_limit_of_usize() {
    let max = usize::MAX.to_string();
    assert_eq!(body_length(&headers_of(&[("Content-Length", &max)])), usize::MAX);
    let beyond = format!("{}0", max);
    assert_eq!(body_length(&headers_of(&[("Content-Length", &beyond)])), 0);
    let next = (usize::MAX as u128 + 1).to_string();
    assert_eq!(body_length(&headers_of(&[("Content-Length", &next)])), 0);
    assert_eq!(
        body_length(&headers_of(&[("Content-Length", "99999999999999999999999999999999")])),
        0
    );
}

#[test]
fn parser_asks_for_lines_then_body() {
    let mut state = Parsing::new();
    assert_eq!(state.next_read(), Read::Line);
    state = state.feed_line("POST /files/foo.txt HTTP/1.1\r\n").unwrap();
    assert_eq!(state.next_read(), Read::Line);
    state = state.feed_line("Host: localhost\r\n").unwrap();
    assert_eq!(state.next_read(), Read::Line);
    state = state.feed_line("Content-Length: 5\r\n").unwrap();
    assert_eq!(state.next_read(), Read::Line);
    state = state.feed_line("\r\n").unwrap();
    assert_eq!(state.next_read(), Read::Exact(5));
    state = state.feed_body(b"hello".to_vec()).unwrap();
    assert_eq!(state.next_read(), Read::Nothing);
    let request = state.into_request().unwrap();
    assert_eq!(request.method, HttpMethod::POST);
    assert_eq!(request.path, "/files/foo.txt");
    assert_eq!(request.protocol, "HTTP/1.1");
    assert_eq!(request.headers.len(), 2);
    assert_eq!(request.headers.get("Host").unwrap(), "localhost");
    assert_eq!(request.headers.get("Content-Length").unwrap(), "5");
    assert_eq!(request.body, Some(b"hello".to_vec()));
}

#[test]
fn body_comes_back_byte_for_byte() {
    let body: Vec<u8> = vec![0, 255, 13, 10, 13, 10, 0xc3, 0x28, b'G', b'E', b'T', b' '];
    let state = feed_lines(&["POST /files/raw HTTP/1.1\r\n", "Content-Length: 12\r\n", "\r\n"])
        .unwrap();
    assert_eq!(state.next_read(), Read::Exact(12));
    let request = state.feed_body(body.clone()).unwrap().into_request().unwrap();
    assert_eq!(request.body, Some(body));
}

#[test]
fn body_of_another_length_is_refused() {
    let awaiting =
        || feed_lines(&["POST /files/a HTTP/1.1\r\n", "Content-Length: 5\r\n", "\r\n"]).unwrap();
    assert!(awaiting().feed_body(b"hell".to_vec()).is_none());
    assert!(awaiting().feed_body(b"hello!".to_vec()).is_none());
    assert!(awaiting().feed_body(Vec::new()).is_none());
    assert!(awaiting().feed_body(b"hello".to_vec()).is_some());
}

#[test]
fn body_is_refused_where_none_is_awaited() {
    assert!(Parsing::new().feed_body(Vec::new()).is_none());
    assert!(feed_lines(&["GET / HTTP/1.1\r\n"]).unwrap().feed_body(Vec::new()).is_none());
    assert!(feed_lines(&["GET / HTTP/1.1\r\n", "\r\n"]).unwrap().feed_body(Vec::new()).is_none());
}

#[test]
fn request_without_content_length_has_no_body() {
    let request = complete(&["GET /echo/abc HTTP/1.1\r\n", "Host: localhost\r\n", "\r\n"]);
    assert_eq!(request.method, HttpMethod::GET);
    assert_eq!(request.path, "/echo/abc");
    assert_eq!(request.body, None);
}

#[test]
fn content_length_that_is_no_number_means_no_body() {
    let request = complete(&["POST /files/a HTTP/1.1\r\n", "Content-Length: five\r\n", "\r\n"]);
    assert_eq!(request.body, None);
    let request = complete(&["POST /files/a HTTP/1.1\r\n", "Content-Length: 0\r\n", "\r\n"]);
    assert_eq!(request.body, None);
}

#[test]
fn later_header_replaces_earlier_one() {
    let request = complete(&[
        "GET / HTTP/1.1\r\n",
        "X-Trace: first\r\n",
        "Host: a\r\n",
        "X-Trace: second\r\n",
        "\r\n",
    ]);
    assert_eq!(request.headers.len(), 2);
    assert_eq!(request.headers.get("X-Trace").unwrap(), "second");
}

#[test]
fn header_names_are_told_apart_by_case() {
    let request = complete(&["GET / HTTP/1.1\r\n", "host: a\r\n", "Host: b\r\n", "\r\n"]);
    assert_eq!(request.headers.len(), 2);
    assert_eq!(request.headers.get("host").unwrap(), "a");
    assert_eq!(request.headers.get("Host").unwrap(), "b");
    assert!(request.headers.get("HOST").is_none());
}

#[test]
fn line_without_colon_is_passed_over() {
    let request = complete(&[
        "GET / HTTP/1.1\r\n",
        "this line has no separator\r\n",
        "Host: a\r\n",
        "\r\n",
    ]);
    assert_eq!(request.headers.len(), 1);
    assert_eq!(request.headers.get("Host").unwrap(), "a");
}

#[test]
fn end_of_stream_ends_the_headers() {
    let request = complete(&["GET / HTTP/1.1\r\n", "Host: a\r\n", ""]);
    assert_eq!(request.headers.get("Host").unwrap(), "a");
}

#[test]
fn line_of_whitespace_ends_the_headers() {
    let state = feed_lines(&["GET / HTTP/1.1\r\n", "  \t \r\n"]).unwrap();
    assert_eq!(state.next_read(), Read::Nothing);
}

#[test]
fn bare_line_feed_ends_the_headers() {
    let state = feed_lines(&["GET / HTTP/1.1\n", "Host: a\n", "\n"]).unwrap();
    assert_eq!(state.next_read(), Read::Nothing);
}

#[test]
fn whole_request_takes_no_more_lines() {
    let state = feed_lines(&["GET / HTTP/1.1\r\n", "\r\n", "Host: late\r\n"]).unwrap();
    let request = state.into_request().unwrap();
    assert_eq!(request.headers.len(), 0);
}

#[test]
fn awaited_body_takes_no_lines() {
    let state = feed_lines(&[
        "POST /files/a HTTP/1.1\r\n",
        "Content-Length: 3\r\n",
        "\r\n",
        "Content-Length: 9\r\n",
    ])
    .unwrap();
    assert_eq!(state.next_read(), Read::Exact(3));
}

#[test]
fn unfinished_request_is_no_request() {
    assert!(Parsing::new().into_request().is_none());
    assert!(feed_lines(&["GET / HTTP/1.1\r\n"]).unwrap().into_request().is_none());
    assert!(feed_lines(&["POST / HTTP/1.1\r\n", "Content-Length: 1\r\n", "\r\n"])
        .unwrap()
        .into_request()
        .is_none());
}

#[test]
fn refused_request_line_stops_the_parser() {
    assert!(matches!(feed_lines(&["BREW /pot HTCPCP/1.0\r\n"]), Err(ParseError::UnsupportedMethod)));
    assert!(matches!(feed_lines(&[""]), Err(ParseError::MalformedRequestLine)));
}
