use std::io::Read;

use flate2::read::GzDecoder;

use http_server::accept_encoding::AcceptEncoding;
use http_server::config::Config;
use http_server::content_type::ContentType;
use http_server::encoding::Encoding;
use http_server::handlers::{
    echo_route, file_path, file_read_response, file_write_plan, file_write_response, root,
    user_agent,
};
use http_server::header::Header;
use http_server::method::Method;
use http_server::request::{NextRead, ParseError, Request, RequestHead, StartLine};
use http_server::response::Response;
use http_server::route_pattern::compile_pattern;
use http_server::server::{not_found, params_from_captures, HttpServer};
use http_server::status_code::StatusCode;
use http_server::string_map::StringMap;

/// Feeds a start line, header lines (the blank line included) and a body to the parser.
fn parse(start: &str, lines: &[&str], body: Vec<u8>) -> Result<Request, ParseError> {
    let mut head = RequestHead::new(StartLine::parse(start)?);
    for line in lines {
        match head.feed_line(line)? {
            NextRead::Line => {}
            NextRead::Body(n) => assert_eq!(n, body.len()),
        }
    }
    head.into_request(body)
}

fn text(bytes: &[u8]) -> String {
    String::from_utf8(bytes.to_vec()).unwrap()
}

fn gunzip(bytes: &[u8]) -> Vec<u8> {
    let mut out = Vec::new();
    GzDecoder::new(bytes).read_to_end(&mut out).unwrap();
    out
}

/// Splits the wire form of a response into its head and its body.
fn split_response(bytes: &[u8]) -> (String, Vec<u8>) {
    let end = bytes.windows(4).position(|w| w == b"\r\n\r\n").unwrap() + 4;
    (text(&bytes[..end]), bytes[end..].to_vec())
}

fn routes() -> HttpServer<u32> {
    HttpServer::builder()
        .get("/", 1)
        .get("/echo/:message", 2)
        .get("/user-agent", 3)
        .get("/files/:file_name", 4)
        .post("/files/:file_name", 5)
        .build()
}

#[test]
fn root_request_gets_empty_ok() {
    let request = parse("GET / HTTP/1.1\r\n", &["\r\n"], vec![]).unwrap();
    let server = routes();
    let (handler, request) = server.dispatch(request).unwrap();
    assert_eq!(*handler, 1);
    let bytes = root(request).as_byte();
    assert_eq!(text(&bytes), "HTTP/1.1 200 OK\r\ncontent-type: text/plain\r\n\r\n");
}

#[test]
fn echo_returns_the_message() {
    let request = parse("GET /echo/abc HTTP/1.1\r\n", &["\r\n"], vec![]).unwrap();
    let server = routes();
    let (handler, request) = server.dispatch(request).unwrap();
    assert_eq!(*handler, 2);
    assert_eq!(request.params.get("message").unwrap(), "abc");
    let bytes = echo_route(request).as_byte();
    assert_eq!(
        text(&bytes),
        "HTTP/1.1 200 OK\r\ncontent-type: text/plain\r\ncontent-length: 3\r\n\r\nabc"
    );
}

#[test]
fn echo_with_gzip_compresses_the_body() {
    let request = parse(
        "GET /echo/abc HTTP/1.1\r\n",
        &["accept-encoding: gzip\r\n", "\r\n"],
        vec![],
    )
    .unwrap();
    let (_, request) = routes().dispatch(request).unwrap();
    let bytes = echo_route(request).as_byte();
    let (head, body) = split_response(&bytes);
    assert!(head.contains("content-encoding: gzip\r\n"));
    assert!(head.contains(&format!("content-length: {}\r\n", body.len())));
    assert_ne!(body, b"abc".to_vec());
    assert_eq!(gunzip(&body), b"abc".to_vec());
}

#[test]
fn echo_skips_unknown_encodings() {
    let request = parse(
        "GET /echo/hi HTTP/1.1\r\n",
        &["Accept-Encoding: br, deflate\r\n", "\r\n"],
        vec![],
    )
    .unwrap();
    let (_, request) = routes().dispatch(request).unwrap();
    let bytes = echo_route(request).as_byte();
    assert_eq!(
        text(&bytes),
        "HTTP/1.1 200 OK\r\ncontent-type: text/plain\r\ncontent-length: 2\r\n\r\nhi"
    );
}

#[test]
fn unregistered_path_is_not_found() {
    let request = parse("GET /nowhere HTTP/1.1\r\n", &["\r\n"], vec![]).unwrap();
    assert!(routes().dispatch(request).is_none());
    let bytes = not_found().as_byte();
    assert_eq!(text(&bytes), "HTTP/1.1 404 Not Found\r\ncontent-type: text/plain\r\n\r\n");
}

#[test]
fn method_must_match_the_route() {
    let request = parse("PUT /user-agent HTTP/1.1\r\n", &["\r\n"], vec![]).unwrap();
    assert!(routes().dispatch(request).is_none());
}

#[test]
fn post_file_writes_the_exact_body() {
    let request = parse(
        "POST /files/x.txt HTTP/1.1\r\n",
        &["Content-Length: 5\r\n", "\r\n"],
        b"hello".to_vec(),
    )
    .unwrap();
    let server = routes();
    let (handler, request) = server.dispatch(request).unwrap();
    assert_eq!(*handler, 5);
    let config = Config::from_args(&vec![
        "server".to_string(),
        "--directory".to_string(),
        "/srv/data".to_string(),
    ]);
    let plan = file_write_plan(&config.directory, request).unwrap();
    assert_eq!(plan.path, "/srv/data/x.txt");
    assert_eq!(plan.contents, b"hello".to_vec());
    let bytes = file_write_response(true).as_byte();
    assert_eq!(text(&bytes), "HTTP/1.1 201 Created\r\ncontent-type: text/plain\r\n\r\n");
}

#[test]
fn post_file_without_directory_fails() {
    let request = parse("POST /files/x.txt HTTP/1.1\r\n", &["\r\n"], vec![]).unwrap();
    let (_, request) = routes().dispatch(request).unwrap();
    assert!(file_write_plan(&None, request).is_none());
    let bytes = file_write_response(false).as_byte();
    assert_eq!(
        text(&bytes),
        "HTTP/1.1 500 Internal Server Error\r\ncontent-type: text/plain\r\n\r\n"
    );
}

#[test]
fn file_read_responses() {
    let found = file_read_response(Some(b"data".to_vec())).as_byte();
    assert_eq!(
        text(&found),
        "HTTP/1.1 200 OK\r\ncontent-type: application/octet-stream\r\ncontent-length: 4\r\n\r\ndata"
    );
    let missing = file_read_response(None).as_byte();
    assert_eq!(text(&missing), "HTTP/1.1 404 Not Found\r\ncontent-type: text/plain\r\n\r\n");
}

#[test]
fn file_parameter_may_hold_slashes() {
    let request = parse("GET /files/a/b.txt HTTP/1.1\r\n", &["\r\n"], vec![]).unwrap();
    let server = routes();
    let (handler, request) = server.dispatch(request).unwrap();
    assert_eq!(*handler, 4);
    assert_eq!(request.params.get("file_name").unwrap(), "a/b.txt");
    let path = file_path(&Some("dir".to_string()), &request).unwrap();
    assert_eq!(path, "dir/a/b.txt");
}

#[test]
fn user_agent_is_echoed() {
    let request = parse(
        "GET /user-agent HTTP/1.1\r\n",
        &["Host: localhost:4221\r\n", "User-Agent: foobar/1.2.3\r\n", "\r\n"],
        vec![],
    )
    .unwrap();
    let server = routes();
    let (handler, request) = server.dispatch(request).unwrap();
    assert_eq!(*handler, 3);
    let bytes = user_agent(request).as_byte();
    assert_eq!(
        text(&bytes),
        "HTTP/1.1 200 OK\r\ncontent-type: text/plain\r\ncontent-length: 12\r\n\r\nfoobar/1.2.3"
    );
}

#[test]
fn body_is_exactly_the_declared_length() {
    let start = StartLine::parse("POST /files/a HTTP/1.1\r\n").unwrap();
    let mut head = RequestHead::new(start);
    assert_eq!(head.feed_line("Content-Length: 5\r\n"), Ok(NextRead::Line));
    assert_eq!(head.feed_line("\r\n"), Ok(NextRead::Body(5)));
    let request = head.into_request(b"12345".to_vec()).unwrap();
    assert_eq!(request.body, b"12345".to_vec());

    let mut short = RequestHead::new(StartLine::parse("POST /a HTTP/1.1").unwrap());
    short.feed_line("content-length: 5\n").unwrap();
    assert_eq!(
        short.into_request(b"1234".to_vec()).unwrap_err(),
        ParseError::BodyLengthMismatch
    );
}

#[test]
fn missing_content_length_means_empty_body() {
    let mut head = RequestHead::new(StartLine::parse("POST /files/a HTTP/1.1\r\n").unwrap());
    assert_eq!(head.feed_line("\r\n"), Ok(NextRead::Body(0)));
    assert_eq!(head.feed_line(""), Ok(NextRead::Body(0)));
    let request = head.into_request(vec![]).unwrap();
    assert!(request.body.is_empty());
}

#[test]
fn bad_content_length_is_refused() {
    let mut head = RequestHead::new(StartLine::parse("POST /a HTTP/1.1\r\n").unwrap());
    head.feed_line("content-length: 12a\r\n").unwrap();
    assert_eq!(head.feed_line("\r\n"), Err(ParseError::InvalidContentLength));
    let mut huge = RequestHead::new(StartLine::parse("POST /a HTTP/1.1\r\n").unwrap());
    huge.feed_line("content-length: 99999999999999999999999\r\n").unwrap();
    assert_eq!(huge.feed_line("\r\n"), Err(ParseError::InvalidContentLength));
    let mut empty = RequestHead::new(StartLine::parse("POST /a HTTP/1.1\r\n").unwrap());
    empty.feed_line("content-length: \r\n").unwrap();
    assert_eq!(empty.body_length(), Err(ParseError::InvalidContentLength));
}

#[test]
fn header_names_are_lowercased_and_last_wins() {
    let request = parse(
        "GET / HTTP/1.1\r\n",
        &["X-Custom: one\r\n", "x-CUSTOM: two\r\n", "\r\n"],
        vec![],
    )
    .unwrap();
    assert_eq!(request.headers.get("x-custom").unwrap(), "two");
    assert!(request.headers.get("X-Custom").is_none());
    assert_eq!(request.headers.len(), 1);
}

#[test]
fn header_value_keeps_later_separators() {
    assert_eq!(Request::parse_header("Host: a: b\r\n"), Ok(("Host", "a: b")));
    assert_eq!(Request::parse_header("Key: value\n"), Ok(("Key", "value")));
    assert_eq!(Request::parse_header("Key: "), Ok(("Key", "")));
    assert_eq!(
        Request::parse_header("NoSeparator\r\n"),
        Err(ParseError::MalformedHeader)
    );
    let mut head = RequestHead::new(StartLine::parse("GET / HTTP/1.1\r\n").unwrap());
    assert_eq!(head.feed_line("Key:value\r\n"), Err(ParseError::MalformedHeader));
}

#[test]
fn start_line_forms() {
    let line = StartLine::parse("DELETE /x HTTP/1.1\r\n").unwrap();
    assert_eq!(line.method, Method::Delete);
    assert_eq!(line.path, "/x");
    assert_eq!(line.version, "HTTP/1.1");
    assert_eq!(StartLine::parse("PUT /y HTTP/1.0").unwrap().method, Method::Put);
    assert_eq!(StartLine::parse("GET /\r\n").unwrap_err(), ParseError::MalformedStartLine);
    assert_eq!(
        StartLine::parse("GET / HTTP/1.1 extra\r\n").unwrap_err(),
        ParseError::MalformedStartLine
    );
    assert_eq!(
        StartLine::parse("GET  / HTTP/1.1\r\n").unwrap_err(),
        ParseError::MalformedStartLine
    );
    assert_eq!(
        StartLine::parse("get / HTTP/1.1\r\n").unwrap_err(),
        ParseError::UnknownMethod
    );
    assert_eq!(
        StartLine::parse("FETCH / HTTP/1.1\r\n").unwrap_err(),
        ParseError::UnknownMethod
    );
    assert_eq!(StartLine::parse("").unwrap_err(), ParseError::MalformedStartLine);
}

#[test]
fn method_tokens() {
    assert_eq!(Method::from_token("GET"), Some(Method::Get));
    assert_eq!(Method::from_token("POST"), Some(Method::Post));
    assert_eq!(Method::from_token("DELETE"), Some(Method::Delete));
    assert_eq!(Method::from_token("Delete"), None);
}

#[test]
fn plain_body_declares_its_length() {
    let mut builder = Response::builder()
        .status_code(StatusCode::OK)
        .body(Some(vec![7u8; 1234]));
    let bytes = builder.build().as_byte();
    let (head, body) = split_response(&bytes);
    assert_eq!(
        head,
        "HTTP/1.1 200 OK\r\ncontent-type: text/plain\r\ncontent-length: 1234\r\n\r\n"
    );
    assert_eq!(body, vec![7u8; 1234]);
}

#[test]
fn gzip_body_declares_compressed_length() {
    let plain = b"hello hello hello hello hello".to_vec();
    let mut builder = Response::builder()
        .content_type(ContentType::OctetStream)
        .accept_encoding(Some(Encoding::Gzip))
        .body(Some(plain.clone()));
    let bytes = builder.build().as_byte();
    let (head, body) = split_response(&bytes);
    assert_eq!(
        head,
        format!(
            "HTTP/1.1 200 OK\r\ncontent-type: application/octet-stream\r\ncontent-encoding: gzip\r\ncontent-length: {}\r\n\r\n",
            body.len()
        )
    );
    assert_eq!(gunzip(&body), plain);
}

#[test]
fn encoding_without_body_is_not_announced() {
    let mut builder = Response::builder().accept_encoding(Some(Encoding::Gzip));
    let bytes = builder.build().as_byte();
    assert_eq!(text(&bytes), "HTTP/1.1 200 OK\r\ncontent-type: text/plain\r\n\r\n");
}

#[test]
fn empty_body_declares_zero() {
    let mut builder = Response::builder().body(Some(vec![]));
    let bytes = builder.build().as_byte();
    assert_eq!(
        text(&bytes),
        "HTTP/1.1 200 OK\r\ncontent-type: text/plain\r\ncontent-length: 0\r\n\r\n"
    );
}

#[test]
fn first_registered_route_wins() {
    let server = HttpServer::builder()
        .get("/echo/:message", 1u32)
        .get("/echo/fixed", 2u32)
        .build();
    for _ in 0..3 {
        let (index, params) = server.find_route(Method::Get, "/echo/fixed").unwrap();
        assert_eq!(index, 0);
        assert_eq!(params.get("message").unwrap(), "fixed");
    }
    let reversed = HttpServer::builder()
        .get("/echo/fixed", 2u32)
        .get("/echo/:message", 1u32)
        .build();
    let (index, params) = reversed.find_route(Method::Get, "/echo/fixed").unwrap();
    assert_eq!(index, 0);
    assert!(params.is_empty());
    let (index, _) = reversed.find_route(Method::Get, "/echo/other").unwrap();
    assert_eq!(index, 1);
}

#[test]
fn registering_again_replaces_the_handler() {
    let server = HttpServer::builder()
        .get("/a", 1u32)
        .get("/b", 2u32)
        .get("/a", 3u32)
        .post("/a", 4u32)
        .build();
    assert_eq!(server.len(), 3);
    let request = parse("GET /a HTTP/1.1\r\n", &["\r\n"], vec![]).unwrap();
    let (handler, _) = server.dispatch(request).unwrap();
    assert_eq!(*handler, 3);
    let request = parse("POST /a HTTP/1.1\r\n", &["\r\n"], vec![]).unwrap();
    let (handler, _) = server.dispatch(request).unwrap();
    assert_eq!(*handler, 4);
}

#[test]
fn literal_segments_match_verbatim() {
    let server = HttpServer::builder().get("/a.b/(x)", 1u32).build();
    assert!(server.find_route(Method::Get, "/a.b/(x)").is_some());
    assert!(server.find_route(Method::Get, "/axb/(x)").is_none());
    assert!(server.find_route(Method::Get, "/a.b/(x)/more").is_none());
}

#[test]
fn patterns_compile_to_anchored_expressions() {
    let (regex, names) = compile_pattern("/echo/:message");
    assert_eq!(regex, "^/echo/(?<message>.*)$");
    assert_eq!(names, vec!["message".to_string()]);
    let (regex, names) = compile_pattern("/a.b/:x/:y");
    assert_eq!(regex, "^/a\\.b/(?<x>.*)/(?<y>.*)$");
    assert_eq!(names, vec!["x".to_string(), "y".to_string()]);
    let (regex, names) = compile_pattern("/");
    assert_eq!(regex, "^/$");
    assert!(names.is_empty());
}

#[test]
fn two_parameters_are_both_captured() {
    let server = HttpServer::builder().get("/u/:id/p/:page", 1u32).build();
    let (_, params) = server.find_route(Method::Get, "/u/42/p/7").unwrap();
    assert_eq!(params.get("id").unwrap(), "42");
    assert_eq!(params.get("page").unwrap(), "7");
}

#[test]
fn captures_become_parameters() {
    let names = vec!["a".to_string(), "b".to_string(), "a".to_string()];
    let caps = vec![Some("1".to_string()), None, Some("3".to_string())];
    let params = params_from_captures(&names, &caps);
    assert_eq!(params.get("a").unwrap(), "3");
    assert!(params.get("b").is_none());
    assert_eq!(params.len(), 1);
}

#[test]
fn accept_encoding_negotiation() {
    assert_eq!(Encoding::negotiate("gzip"), Some(Encoding::Gzip));
    assert_eq!(Encoding::negotiate(" deflate , GZIP "), Some(Encoding::Gzip));
    assert_eq!(Encoding::negotiate("br,\tgzip\u{a0}"), Some(Encoding::Gzip));
    assert_eq!(Encoding::negotiate("br, deflate"), None);
    assert_eq!(Encoding::negotiate(""), None);
    assert_eq!(Encoding::negotiate("gzipx"), None);
}

#[test]
fn names_and_tokens() {
    assert_eq!(Encoding::Gzip.to_str(), "gzip");
    assert_eq!(Encoding::from_token("GZip"), Some(Encoding::Gzip));
    assert_eq!(AcceptEncoding::Gzip.to_str(), "gzip");
    assert_eq!(AcceptEncoding::from_token("gzip"), Some(AcceptEncoding::Gzip));
    assert_eq!(AcceptEncoding::from_token("identity"), None);
    assert_eq!(ContentType::Plain.to_str(), "text/plain");
    assert_eq!(ContentType::OctetStream.to_str(), "application/octet-stream");
    assert_eq!(Header::ContentLength.to_str(), "content-length");
    assert_eq!(Header::from_name("User-Agent"), Some(Header::UserAgent));
    assert_eq!(Header::from_name("HOST"), Some(Header::Host));
    assert_eq!(Header::from_name("x-other"), None);
    assert_eq!(StatusCode::OK.status_line(), "200 OK");
    assert_eq!(StatusCode::Created.status_line(), "201 Created");
    assert_eq!(StatusCode::NotFound.status_line(), "404 Not Found");
    assert_eq!(
        StatusCode::InternalServerError.status_line(),
        "500 Internal Server Error"
    );
}

#[test]
fn config_takes_the_last_directory() {
    let args = |v: &[&str]| v.iter().map(|s| s.to_string()).collect::<Vec<String>>();
    assert_eq!(
        Config::from_args(&args(&["srv", "--directory", "/a", "--directory", "/b"])).directory,
        Some("/b".to_string())
    );
    assert_eq!(Config::from_args(&args(&["srv", "--port", "1"])).directory, None);
    assert_eq!(Config::from_args(&args(&["srv", "--directory"])).directory, None);
    assert_eq!(Config::from_args(&args(&[])).directory, None);
}

#[test]
fn string_map_replaces_values() {
    let mut map = StringMap::new();
    map.insert("k".to_string(), "v1".to_string());
    map.insert("j".to_string(), "w".to_string());
    map.insert("k".to_string(), "v2".to_string());
    assert_eq!(map.get("k").unwrap(), "v2");
    assert_eq!(map.get("j").unwrap(), "w");
    assert_eq!(map.len(), 2);
    assert!(map.get("K").is_none());
}

#[test]
fn building_twice_gives_the_same_bytes() {
    let mut builder = Response::builder()
        .accept_encoding(Some(Encoding::Gzip))
        .body(Some(b"abcabcabc".to_vec()));
    let first = builder.build().as_byte();
    let second = builder.build().as_byte();
    assert_eq!(first, second);
    let (head, body) = split_response(&second);
    assert!(head.contains("content-encoding: gzip\r\n"));
    assert_eq!(gunzip(&body), b"abcabcabc".to_vec());
}
