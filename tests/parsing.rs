use http_server::body::{
    boundary_of, finish_body, has_body, parse_url_form_body, read_body, BodyContent, BodyPlan,
    HasBody,
};
use http_server::bytes::{find_double_crlf, parse_u64_max, push_dec, push_hex, trim_bounds};
use http_server::connection::{is_keep_alive, next_step, ConnAction, ConnEvent, ConnState};
use http_server::head::{parse_header, HeadRead, HeadReader};
use http_server::request::Request;
use http_server::HeaderMap;

fn head_of(text: &str) -> http_server::Head {
    parse_header(text.as_bytes()).expect("head parses")
}

#[test]
fn oversized_head_is_refused() {
    let mut r = HeadReader::new(16);
    assert!(matches!(r.read_http_head(b"GET / HTTP/1.1\r\n"), HeadRead::NeedMore));
    assert!(matches!(r.read_http_head(b"Host: x"), HeadRead::TooLarge));
    let (state, action) = next_step(ConnState::ReadingHead, ConnEvent::HeadFailed);
    assert!(matches!(state, ConnState::Closed));
    assert!(matches!(action, ConnAction::Close));
}

#[test]
fn head_is_complete_at_blank_line() {
    let mut r = HeadReader::new(1024);
    assert!(matches!(r.read_http_head(b"GET / HTTP/1.1\r\nHost: x\r\n"), HeadRead::NeedMore));
    match r.read_http_head(b"\r\nabc") {
        HeadRead::Complete(head, rest) => {
            assert_eq!(head, b"GET / HTTP/1.1\r\nHost: x".to_vec());
            assert_eq!(rest, b"abc".to_vec());
        }
        _ => panic!("head should be complete"),
    }
}

#[test]
fn double_crlf_position() {
    assert_eq!(find_double_crlf(b"ab\r\n\r\ncd"), Some(2));
    assert_eq!(find_double_crlf(b"ab\r\ncd"), None);
}

#[test]
fn head_splits_request_line_and_fields() {
    let h = head_of("GET /a?x=1 HTTP/1.1\r\nHost:  example \r\nConnection: keep-alive");
    assert_eq!(h.method, "GET");
    assert_eq!(h.url, "/a?x=1");
    assert_eq!(h.version, "HTTP/1.1");
    assert_eq!(h.headers.len(), 2);
    assert_eq!(h.headers.get("host"), Some("example"));
    assert_eq!(h.headers.get("CONNECTION"), Some("keep-alive"));
    assert!(is_keep_alive(&h.headers));
}

#[test]
fn later_header_replaces_earlier_of_same_name() {
    let h = head_of("GET / HTTP/1.1\r\nX-A: 1\r\nx-a: 2");
    assert_eq!(h.headers.len(), 1);
    assert_eq!(h.headers.entry(0), ("x-a", "2"));
}

#[test]
fn head_without_fields_parses() {
    let h = head_of("GET / HTTP/1.1");
    assert_eq!(h.headers.len(), 0);
}

#[test]
fn header_line_without_colon_is_refused() {
    assert!(parse_header(b"GET / HTTP/1.1\r\nHost example").is_none());
}

#[test]
fn short_request_line_is_refused() {
    assert!(parse_header(b"GET /\r\nHost: x").is_none());
}

#[test]
fn head_that_is_not_utf8_is_refused() {
    assert!(parse_header(b"GET / HTTP/1.1\r\nX: \xff").is_none());
}

#[test]
fn keep_alive_needs_explicit_header() {
    assert!(!is_keep_alive(&head_of("GET / HTTP/1.1\r\nHost: x").headers));
    assert!(is_keep_alive(&head_of("GET / HTTP/1.1\r\nconnection: Keep-Alive").headers));
    assert!(!is_keep_alive(&head_of("GET / HTTP/1.1\r\nConnection: close").headers));
}

#[test]
fn content_length_variants() {
    assert!(matches!(has_body(&head_of("POST / HTTP/1.1\r\nContent-Length: 12").headers), HasBody::Len(12)));
    assert!(matches!(has_body(&head_of("POST / HTTP/1.1\r\nHost: x").headers), HasBody::NoLength));
    assert!(matches!(has_body(&head_of("POST / HTTP/1.1\r\ncontent-length: 1x").headers), HasBody::Bad));
    assert!(matches!(has_body(&head_of("POST / HTTP/1.1\r\ncontent-length: -1").headers), HasBody::Bad));
}

#[test]
fn body_plans() {
    let h = head_of("POST / HTTP/1.1\r\nContent-Type: text/plain");
    assert!(matches!(read_body(&h.headers, 0, 0, 100), BodyPlan::NoBody));
    assert!(matches!(read_body(&h.headers, 10, 4, 100), BodyPlan::Raw(6, false)));
    assert!(matches!(read_body(&h.headers, 200, 0, 100), BodyPlan::TooLarge));
    let none = head_of("POST / HTTP/1.1\r\nHost: x");
    assert!(matches!(read_body(&none.headers, 5, 0, 100), BodyPlan::Bad));
    let form = head_of("POST / HTTP/1.1\r\nContent-Type: Application/X-WWW-Form-Urlencoded");
    assert!(matches!(read_body(&form.headers, 5, 5, 100), BodyPlan::Raw(0, true)));
    let mp = head_of("POST / HTTP/1.1\r\nContent-Type: multipart/form-data; boundary=---X");
    match read_body(&mp.headers, 500, 100, 10) {
        BodyPlan::Multipart(b, need) => {
            assert_eq!(b, b"-----X".to_vec());
            assert_eq!(need, 400);
        }
        _ => panic!("multipart plan expected"),
    }
    let nob = head_of("POST / HTTP/1.1\r\nContent-Type: multipart/form-data");
    assert!(matches!(read_body(&nob.headers, 5, 0, 100), BodyPlan::Bad));
}

#[test]
fn boundary_is_taken_after_semicolon_and_equals() {
    assert_eq!(boundary_of(b"multipart/form-data;  boundary = abc "), Some(b"--abc".to_vec()));
    assert_eq!(boundary_of(b"multipart/form-data"), None);
    assert_eq!(boundary_of(b"multipart/form-data; boundary"), None);
}

#[test]
fn url_form_drops_empty_sides_and_keeps_last_value() {
    match parse_url_form_body(b"a=1&b=&=c&d=4&a=5&e") {
        BodyContent::UrlForm(m) => {
            assert_eq!(m.len(), 2);
            assert_eq!(m.entry(0).0, "a");
            assert_eq!(m.entry(0).1, "5");
            assert_eq!(m.entry(1).0, "d");
            assert_eq!(m.entry(1).1, "4");
        }
        _ => panic!("form expected"),
    }
    assert!(matches!(parse_url_form_body(b"a=\xff"), BodyContent::Bad));
}

#[test]
fn url_form_is_not_percent_decoded() {
    match parse_url_form_body(b"q=a%20b") {
        BodyContent::UrlForm(m) => assert_eq!(m.entry(0).1, "a%20b"),
        _ => panic!("form expected"),
    }
}

#[test]
fn raw_body_is_text_or_bad() {
    match finish_body(false, b"hello") {
        BodyContent::PureText(t) => assert_eq!(t, "hello"),
        _ => panic!("text expected"),
    }
    assert!(matches!(finish_body(false, b"\xff\xfe"), BodyContent::Bad));
}

#[test]
fn request_accessors() {
    let h = head_of("GET /p?id=1&x=&id=2&flag HTTP/1.1\r\nHost: x\r\nContent-Type: text/plain");
    let req = Request::new(h, finish_body(false, b"body text"));
    assert_eq!(req.get_header("content-type"), Some("text/plain"));
    assert_eq!(req.get_header("missing"), None);
    assert_eq!(req.get_param("id"), Some("1".to_string()));
    assert_eq!(req.get_param("x"), Some("".to_string()));
    assert_eq!(req.get_param("flag"), None);
    assert_eq!(req.get_param("ID"), None);
    let params = req.get_params().expect("pairs");
    assert_eq!(params.len(), 2);
    assert_eq!(params.entry(0), ("id", &"2".to_string()));
    assert_eq!(req.get_method(), "GET");
    assert_eq!(req.get_url(), "/p?id=1&x=&id=2&flag");
    assert_eq!(req.get_version(), "HTTP/1.1");
    assert_eq!(req.plain_body(), Some("body text"));
    assert!(req.has_body());
    assert_eq!(req.get_headers().len(), 2);
    assert!(req.get_query("a").is_none());
}

#[test]
fn request_without_query_has_no_params() {
    let req = Request::new(head_of("GET /p HTTP/1.1\r\nHost: x"), BodyContent::NoBody);
    assert!(req.get_params().is_none());
    assert_eq!(req.get_param("a"), None);
    assert!(!req.has_body());
}

#[test]
fn form_queries_ignore_case() {
    let req = Request::new(head_of("POST / HTTP/1.1\r\nHost: x"), parse_url_form_body(b"Name=bob"));
    assert_eq!(req.get_query("name"), Some("bob"));
    assert_eq!(req.get_queries().expect("fields").len(), 1);
    assert!(req.get_files().is_none());
}

#[test]
fn connection_steps() {
    let (s, a) = next_step(ConnState::ReadingHead, ConnEvent::HeadRead(true, HasBody::Len(7)));
    assert!(matches!(s, ConnState::ReadingBody(true)));
    assert!(matches!(a, ConnAction::ReadBody(7)));
    let (s, a) = next_step(ConnState::ReadingHead, ConnEvent::HeadRead(false, HasBody::Bad));
    assert!(matches!((s, a), (ConnState::Closed, ConnAction::Close)));
    let (s, a) = next_step(ConnState::ReadingBody(true), ConnEvent::BodyRead(false));
    assert!(matches!((s, a), (ConnState::Closed, ConnAction::Close)));
    let (s, a) = next_step(ConnState::Answering(true), ConnEvent::Written(true));
    assert!(matches!((s, a), (ConnState::ReadingHead, ConnAction::ReadHead)));
    let (s, a) = next_step(ConnState::Answering(false), ConnEvent::Written(true));
    assert!(matches!((s, a), (ConnState::Closed, ConnAction::Close)));
    let (s, a) = next_step(ConnState::Answering(true), ConnEvent::Written(false));
    assert!(matches!((s, a), (ConnState::Closed, ConnAction::Close)));
}

#[test]
fn numerals() {
    assert_eq!(parse_u64_max(b"+12", 100), Some(12));
    assert_eq!(parse_u64_max(b"101", 100), None);
    assert_eq!(parse_u64_max(b"", 100), None);
    assert_eq!(parse_u64_max(b"+", 100), None);
    assert_eq!(parse_u64_max(b"18446744073709551615", u64::MAX), Some(u64::MAX));
    assert_eq!(parse_u64_max(b"18446744073709551616", u64::MAX), None);
    let mut v = Vec::new();
    push_hex(&mut v, 255);
    assert_eq!(v, b"FF".to_vec());
    let mut d = Vec::new();
    push_dec(&mut d, 1024);
    assert_eq!(d, b"1024".to_vec());
    assert_eq!(trim_bounds(b" \t ab \r\n"), (3, 5));
}

#[test]
fn header_map_ignores_case_on_every_operation() {
    let mut m = HeaderMap::new();
    m.insert("Content-Type".to_string(), "a".to_string());
    m.insert("X".to_string(), "1".to_string());
    m.insert("content-type".to_string(), "b".to_string());
    assert_eq!(m.len(), 2);
    assert_eq!(m.get("CONTENT-TYPE"), Some("b"));
    assert!(m.contains("x"));
    m.remove("CONTENT-type");
    assert_eq!(m.len(), 1);
    assert!(!m.contains("content-type"));
}

#[test]
fn oversized_head_is_refused_even_when_complete() {
    let mut r = HeadReader::new(2);
    assert!(matches!(r.read_http_head(b"abcd\r\n\r\n"), HeadRead::TooLarge));
    let mut ok = HeadReader::new(4);
    assert!(matches!(ok.read_http_head(b"abcd\r\n\r\nrest"), HeadRead::Complete(_, _)));
}

#[test]
fn head_that_is_not_utf8_is_refused_by_the_reader() {
    let mut r = HeadReader::new(1024);
    assert!(matches!(r.read_http_head(b"GET / HTTP/1.1\r\nX: \xff\r\n\r\n"), HeadRead::NotText));
}

#[test]
fn unicode_white_space_is_trimmed() {
    let h = head_of("POST / HTTP/1.1\r\nContent-Length: 5\u{a0}\r\n\u{3000}X-A\u{2009}: \u{85}v\u{202f}");
    assert!(matches!(has_body(&h.headers), HasBody::Len(5)));
    assert_eq!(h.headers.get("x-a"), Some("v"));
    assert_eq!(trim_bounds("\u{a0} a\u{1680}".as_bytes()), (3, 4));
    assert_eq!(trim_bounds("\u{2028}".as_bytes()), (3, 3));
}
