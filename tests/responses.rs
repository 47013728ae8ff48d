use http_server::head::parse_header;
use http_server::range::{parse_range_content, resolve_range, RangeWindow, ResponseRangeMeta};
use http_server::router::{chain_step, ChainStep};
use http_server::response::{chunk_frame, encode_chunked, last_chunk, BodyType, Response};
use http_server::table::{get_httpstatus_from_code, method_names};
use http_server::{
    get_httpmethod_from_code, HeaderMap, RoundRobin, SerializationMethods, ServerConfig, GET,
    HEAD, POST, TRACE,
};

fn response(method: &str, request_head: &str) -> Response {
    let h = parse_header(request_head.as_bytes()).expect("head parses");
    Response::new("HTTP/1.1".to_string(), method.to_string(), 4, h.headers)
}

fn text(b: &[u8]) -> String {
    String::from_utf8(b.to_vec()).unwrap()
}

#[test]
fn basic_get_head_and_body() {
    let mut res = response("GET", "GET / HTTP/1.1\r\nHost: x\r\nConnection: keep-alive");
    res.write_string("hello");
    let plan = res.prepare_write();
    assert_eq!(text(&plan.head), "HTTP/1.1 200 OK\r\nContent-length: 5\r\n\r\n");
    assert!(plan.send_body);
    assert_eq!((plan.start, plan.len), (0, 5));
}

#[test]
fn handler_that_writes_nothing_sends_zero_length() {
    let mut res = response("POST", "POST / HTTP/1.1\r\nContent-Length: 3");
    let plan = res.prepare_write();
    assert_eq!(text(&plan.head), "HTTP/1.1 200 OK\r\nContent-length: 0\r\n\r\n");
    assert!(!plan.send_body || plan.len == 0);
}

#[test]
fn chunked_frames() {
    let framed = encode_chunked(b"hello world", 4);
    assert_eq!(text(&framed), "4\r\nhell\r\n4\r\no wo\r\n3\r\nrld\r\n0\r\n\r\n");
    assert_eq!(text(&encode_chunked(b"", 4)), "0\r\n\r\n");
    assert_eq!(text(&chunk_frame(&[7u8; 26])[..4]), "1A\r\n");
    assert_eq!(last_chunk(), b"0\r\n\r\n".to_vec());
}

#[test]
fn chunked_response_has_no_length() {
    let mut res = response("GET", "GET / HTTP/1.1\r\nHost: x");
    res.write_string("hello world").chunked();
    let plan = res.prepare_write();
    let head = text(&plan.head);
    assert!(head.contains("Transfer-Encoding: chunked\r\n"));
    assert!(!head.to_lowercase().contains("content-length"));
    assert!(plan.send_body);
    assert_eq!(plan.len, 11);
}

#[test]
fn head_request_sends_no_body() {
    let mut res = response("HEAD", "HEAD / HTTP/1.1\r\nHost: x");
    res.write_string("hello world").chunked();
    assert!(!res.chunked.enable);
    let plan = res.prepare_write();
    assert!(!plan.send_body);
    assert_eq!(text(&plan.head), "HTTP/1.1 200 OK\r\nContent-length: 11\r\n\r\n");
}

#[test]
fn range_read_of_a_file() {
    let mut res = response("GET", "GET /f HTTP/1.1\r\nRange: bytes=2-5");
    res.write_file("data/digits.txt".to_string(), Some(10)).enable_range();
    let plan = res.prepare_write();
    assert_eq!(res.http_state, 206);
    let head = text(&plan.head);
    assert!(head.starts_with("HTTP/1.1 206 Partial Content\r\n"));
    assert!(head.contains("Content-Range: bytes 2-5/10\r\n"));
    assert!(head.contains("Content-length: 4\r\n"));
    assert!(head.contains("Content-Type: text/plain\r\n"));
    assert!(plan.send_body);
    assert_eq!((plan.start, plan.len), (2, 4));
    let body = b"0123456789";
    assert_eq!(&body[plan.start as usize..(plan.start + plan.len) as usize], b"2345");
}

#[test]
fn unsatisfiable_range_is_416_without_body() {
    let mut res = response("GET", "GET /f HTTP/1.1\r\nrange: bytes=20-30");
    res.write_file("data/digits.txt".to_string(), Some(10)).enable_range();
    let plan = res.prepare_write();
    assert_eq!(res.http_state, 416);
    assert!(!plan.send_body);
    assert!(matches!(res.body, BodyType::Empty));
    let head = text(&plan.head);
    assert!(head.starts_with("HTTP/1.1 416 Requested Range Not Satisfiable\r\n"));
    assert!(head.contains("Content-length: 0\r\n"));
}

#[test]
fn range_header_forms() {
    assert!(matches!(parse_range_content("bytes=2-5"), ResponseRangeMeta::Range(Some(2), Some(5))));
    assert!(matches!(parse_range_content(" bytes=3- "), ResponseRangeMeta::Range(Some(3), None)));
    assert!(matches!(parse_range_content("bytes=-500"), ResponseRangeMeta::Range(None, Some(500))));
    assert!(matches!(parse_range_content("bytes=x-7"), ResponseRangeMeta::Range(None, Some(7))));
    assert!(matches!(parse_range_content("bytes"), ResponseRangeMeta::Range(None, None)));
    assert!(matches!(parse_range_content("bytes=5"), ResponseRangeMeta::Range(None, None)));
}

#[test]
fn range_windows() {
    assert!(matches!(resolve_range(Some(2), Some(5), 10), RangeWindow::Window(2, 5)));
    assert!(matches!(resolve_range(Some(3), None, 10), RangeWindow::Window(3, 9)));
    assert!(matches!(resolve_range(None, Some(4), 10), RangeWindow::Window(6, 9)));
    assert!(matches!(resolve_range(None, None, 10), RangeWindow::Whole));
    assert!(matches!(resolve_range(Some(20), Some(30), 10), RangeWindow::Unsatisfiable));
    assert!(matches!(resolve_range(Some(5), Some(2), 10), RangeWindow::Unsatisfiable));
    assert!(matches!(resolve_range(Some(9), None, 10), RangeWindow::Unsatisfiable));
    assert!(matches!(resolve_range(Some(0), Some(10), 10), RangeWindow::Unsatisfiable));
    assert!(matches!(resolve_range(None, Some(11), 10), RangeWindow::Unsatisfiable));
    assert!(matches!(resolve_range(Some(0), Some(0), 0), RangeWindow::Unsatisfiable));
}

#[test]
fn head_range_announces_length() {
    let mut res = response("HEAD", "HEAD /f HTTP/1.1\r\nRange: bytes=2-5");
    res.write_file("a.mp4".to_string(), Some(10)).enable_range();
    assert_eq!(res.http_state, 200);
    assert_eq!(res.header_pair.get("accept-ranges"), Some("bytes"));
    assert_eq!(res.header_pair.get("content-length"), Some("10"));
    assert_eq!(res.header_pair.get("content-type"), Some("video/mp4"));
}

#[test]
fn missing_file_becomes_404_and_stops_the_chain() {
    let mut res = response("GET", "GET /f HTTP/1.1\r\nRange: bytes=1-2");
    res.write_file("nope.txt".to_string(), None).chunked().enable_range().status(200);
    assert_eq!(res.http_state, 404);
    assert!(!res.chunked.enable);
    match &res.body {
        BodyType::Memory(b) => assert_eq!(text(b), "nope.txt file not found"),
        _ => panic!("message body expected"),
    }
    assert_eq!(res.header_pair.get("content-length"), Some("23"));
}

#[test]
fn download_name_only_for_files() {
    let mut res = response("GET", "GET / HTTP/1.1\r\nHost: x");
    res.write_file("dir.v1/pkg".to_string(), Some(3)).specify_file_name("pkg.bin");
    assert_eq!(
        res.header_pair.get("content-disposition"),
        Some("attachment; filename=\"pkg.bin\"")
    );
    assert!(!res.header_exist("content-type"));
    let mut mem = response("GET", "GET / HTTP/1.1\r\nHost: x");
    mem.write_string("x").specify_file_name("y");
    assert!(!mem.header_exist("Content-Disposition"));
}

#[test]
fn response_header_names_ignore_case() {
    let mut res = response("GET", "GET / HTTP/1.1\r\nHost: x");
    res.add_header("Content-Type".to_string(), "text/html".to_string());
    assert!(res.header_exist("content-type"));
    res.add_header("CONTENT-TYPE".to_string(), "text/plain".to_string());
    assert_eq!(res.header_pair.len(), 1);
    assert_eq!(res.header_pair.entry(0), ("CONTENT-TYPE", "text/plain"));
    res.remove_header("content-TYPE".to_string());
    assert!(!res.header_exist("Content-Type"));
    assert_eq!(res.get_request_header_value("HOST"), Some("x"));
}

#[test]
fn write_state_empties_body() {
    let mut res = response("GET", "GET / HTTP/1.1\r\nHost: x");
    res.write_string("abc");
    res.write_state(404);
    assert_eq!(res.http_state, 404);
    assert!(matches!(res.body, BodyType::Empty));
    let plan = res.prepare_write();
    assert_eq!(text(&plan.head), "HTTP/1.1 404 Not Found\r\nContent-length: 0\r\n\r\n");
}

#[test]
fn binary_body_and_status() {
    let mut res = response("GET", "GET / HTTP/1.1\r\nHost: x");
    res.write_binary(vec![0, 159, 146, 150]).status(201);
    assert_eq!(res.http_state, 201);
    assert_eq!(res.take_body_size(), 4);
    assert_eq!(res.header_pair.get("Content-length"), Some("4"));
}

#[test]
fn status_and_method_tables() {
    assert_eq!(get_httpstatus_from_code(200), "200 OK\r\n");
    assert_eq!(get_httpstatus_from_code(101), "101 Switching Protocals\r\n");
    assert_eq!(get_httpstatus_from_code(503), "503 Service Unavailable\r\n");
    assert_eq!(get_httpmethod_from_code(GET), "GET");
    assert_eq!(get_httpmethod_from_code(HEAD), "HEAD");
    assert_eq!(get_httpmethod_from_code(TRACE), "TRACE");
    assert_eq!(method_names(&[POST, GET]), vec!["POST", "GET"]);
    assert_eq!(GET.serialize(), vec!["GET"]);
    assert_eq!([GET, HEAD].serialize(), vec!["GET", "HEAD"]);
    let codes: &[u8] = &[PUT_CODE];
    assert_eq!(codes.serialize(), vec!["PUT"]);
}

const PUT_CODE: u8 = 5;

#[test]
fn config_defaults_and_setters() {
    let mut c = ServerConfig::new();
    assert_eq!(c.upload_directory, "./upload");
    assert_eq!(c.chunk_size, 5120);
    assert_eq!(c.max_body_size, 3 * 1024 * 1024);
    c.set_read_timeout(7);
    c.set_write_timeout(8);
    c.set_chunksize(9);
    c.open_server_log(true);
    c.set_max_body_size(10);
    assert_eq!((c.read_timeout, c.write_timeout, c.chunk_size, c.open_log, c.max_body_size), (7, 8, 9, true, 10));
}

#[test]
fn workers_taken_in_turn() {
    let mut rr = RoundRobin::new(2);
    assert_eq!(rr.poll(), Some(0));
    rr.sent();
    assert_eq!(rr.poll(), Some(1));
    rr.sent();
    assert_eq!(rr.poll(), Some(0));
    assert_eq!(RoundRobin::new(0).poll(), None);
}

#[test]
fn header_map_clone_keeps_order() {
    let mut m = HeaderMap::new();
    m.insert("A".to_string(), "1".to_string());
    m.insert("B".to_string(), "2".to_string());
    let c = m.clone();
    assert_eq!(c.entry(1), ("B", "2"));
}

#[test]
fn bodyless_response_always_says_zero_length() {
    let mut res = response("GET", "GET / HTTP/1.1\r\nHost: x");
    res.add_header("content-length".to_string(), "7".to_string());
    let plan = res.prepare_write();
    assert_eq!(text(&plan.head), "HTTP/1.1 200 OK\r\nContent-length: 0\r\n\r\n");
    assert_eq!(res.body_bytes(&plan), Some(Vec::new()));
}

#[test]
fn wire_bytes_of_memory_bodies() {
    let mut res = response("GET", "GET / HTTP/1.1\r\nHost: x");
    res.write_string("hello");
    let plan = res.prepare_write();
    let mut wire = plan.head.clone();
    wire.extend(res.body_bytes(&plan).unwrap());
    assert_eq!(text(&wire), "HTTP/1.1 200 OK\r\nContent-length: 5\r\n\r\nhello");

    let mut res = response("GET", "GET / HTTP/1.1\r\nHost: x");
    res.write_binary(b"hello world".to_vec()).chunked();
    let plan = res.prepare_write();
    let body = res.body_bytes(&plan).unwrap();
    assert_eq!(text(&body), "4\r\nhell\r\n4\r\no wo\r\n3\r\nrld\r\n0\r\n\r\n");
    assert_eq!(text(&plan.head), "HTTP/1.1 200 OK\r\nTransfer-Encoding: chunked\r\n\r\n");

    let mut file = response("GET", "GET / HTTP/1.1\r\nHost: x");
    file.write_file("a.txt".to_string(), Some(3));
    let plan = file.prepare_write();
    assert!(file.body_bytes(&plan).is_none());
}

#[test]
fn middleware_chain_steps() {
    assert!(matches!(chain_step(0, 2, true), ChainStep::Middleware(0)));
    assert!(matches!(chain_step(1, 2, true), ChainStep::Middleware(1)));
    assert!(matches!(chain_step(2, 2, true), ChainStep::Handler));
    assert!(matches!(chain_step(1, 2, false), ChainStep::Stop));
    assert!(matches!(chain_step(0, 0, true), ChainStep::Handler));
}

#[test]
fn range_value_trimmed_of_unicode_space() {
    assert!(matches!(parse_range_content("\u{3000}bytes=2-5\u{a0}"), ResponseRangeMeta::Range(Some(2), Some(5))));
}

#[test]
fn method_codes_are_checked() {
    assert!(GET.codes_known());
    assert!(!9u8.codes_known());
    assert!([GET, HEAD].codes_known());
    let codes: &[u8] = &[GET, 12];
    assert!(!codes.codes_known());
}
