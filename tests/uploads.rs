use std::collections::HashMap;

use http_server::body::BodyContent;
use http_server::head::parse_header;
use http_server::multipart::{
    get_config_from_disposition, get_file_extension, is_file, parse_file_content_type,
    scan_file_data, spool_path, text_field, ScanOutcome,
};
use http_server::request::Request;
use http_server::{MultipartAction, MultipartReader, MultipleFormData};

const BODY: &[u8] = b"-----X\r\nContent-Disposition: form-data; name=\"name\"\r\n\r\nalice\r\n-----X\r\nContent-Disposition: form-data; name=\"avatar\"; filename=\"a.png\"\r\nContent-Type: image/png\r\n\r\n\x89PN\r\n-----X--\r\n";

struct Outcome {
    done: bool,
    delete: Option<String>,
    files: HashMap<String, Vec<u8>>,
}

/// Feeds `body` to the reader, `pre` bytes up front and the rest as it asks.
fn drive(reader: &mut MultipartReader, body: &[u8], pre: usize) -> Outcome {
    let mut pos = pre;
    let mut files: HashMap<String, Vec<u8>> = HashMap::new();
    let mut open: Option<String> = None;
    loop {
        match reader.step() {
            MultipartAction::Read(n) => {
                let take = n.min(body.len() - pos);
                if take == 0 {
                    let delete = reader.fail();
                    return Outcome { done: false, delete, files };
                }
                reader.feed(&body[pos..pos + take]);
                pos += take;
            }
            MultipartAction::OpenFile(p) => {
                files.insert(p.clone(), Vec::new());
                open = Some(p);
            }
            MultipartAction::Write(d) => {
                files.get_mut(open.as_ref().unwrap()).unwrap().extend_from_slice(&d);
            }
            MultipartAction::WriteAndClose(d) => {
                files.get_mut(open.as_ref().unwrap()).unwrap().extend_from_slice(&d);
                open = None;
            }
            MultipartAction::Continue => {}
            MultipartAction::Done(_) => return Outcome { done: true, delete: None, files },
            MultipartAction::Fail(delete) => return Outcome { done: false, delete, files },
        }
    }
}

fn reader(pre: usize, total: usize, increase: usize) -> MultipartReader {
    MultipartReader::new(
        b"-----X".to_vec(),
        BODY[..pre].to_vec(),
        total - pre,
        increase,
        "/tmp/up".to_string(),
    )
}

#[test]
fn multipart_upload_spools_file_and_keeps_text() {
    for (pre, increase) in [(0usize, 3usize), (10, 1), (40, 1024), (BODY.len(), 7)] {
        let mut r = reader(pre, BODY.len(), increase);
        let out = drive(&mut r, BODY, pre);
        assert!(out.done);
        assert_eq!(out.files.len(), 1);
        let (path, data) = out.files.iter().next().unwrap();
        assert_eq!(data, &b"\x89PN".to_vec());
        assert!(path.starts_with("/tmp/up/"));
        assert!(path.ends_with(".png"));
        assert_eq!(path.len(), "/tmp/up/".len() + 36 + ".png".len());
        let form = r.into_form();
        let head = parse_header(b"POST /up HTTP/1.1\r\nHost: x").unwrap();
        let req = Request::new(head, BodyContent::Multi(form));
        assert_eq!(req.get_query("name"), Some("alice"));
        assert_eq!(req.get_query("avatar"), None);
        let f = req.get_file("avatar").expect("file field");
        assert_eq!(f.filename, "a.png");
        assert_eq!(f.content_type, "image/png");
        assert_eq!(f.form_indice, "avatar");
        assert_eq!(&f.filepath, path);
        assert!(req.get_file("name").is_none());
        assert_eq!(req.get_files().unwrap().len(), 1);
        assert_eq!(req.get_queries().unwrap().len(), 1);
    }
}

#[test]
fn upload_cut_short_names_the_partial_file() {
    let cut = BODY.len() - 14;
    let mut r = reader(0, BODY.len(), 4);
    let out = drive(&mut r, &BODY[..cut], 0);
    assert!(!out.done);
    let path = out.delete.expect("the spool file is to be deleted");
    assert!(out.files.contains_key(&path));
}

#[test]
fn body_that_ends_before_a_boundary_fails_without_file() {
    let mut r = reader(0, 20, 8);
    let out = drive(&mut r, &BODY[..20], 0);
    assert!(!out.done);
    assert!(out.delete.is_none());
    assert!(out.files.is_empty());
}

#[test]
fn body_without_boundary_fails() {
    let body = b"hello world, no boundary here";
    let mut r = MultipartReader::new(b"-----X".to_vec(), body.to_vec(), 0, 16, "/tmp".to_string());
    assert!(matches!(r.step(), MultipartAction::Fail(None)));
}

#[test]
fn file_data_with_line_breaks_is_kept() {
    let body = b"--b\r\nContent-Disposition: form-data; name=\"f\"; filename=\"x\"\r\n\r\na\r\nb\rc\r\n-x\r\n--b--";
    let mut r = MultipartReader::new(b"--b".to_vec(), Vec::new(), body.len(), 2, "d".to_string());
    let out = drive(&mut r, body, 0);
    assert!(out.done);
    let (path, data) = out.files.iter().next().unwrap();
    assert_eq!(data, &b"a\r\nb\rc\r\n-x".to_vec());
    assert_eq!(path.len(), "d/".len() + 36);
}

#[test]
fn disposition_fields() {
    let line = b"Content-Disposition: form-data; name=\"avatar\"; filename=\"a.png\"\r\n";
    assert!(is_file(line));
    let ((a, b), f) = get_config_from_disposition(line, true).unwrap();
    assert_eq!(&line[a..b], b"avatar");
    let (c, d) = f.unwrap();
    assert_eq!(&line[c..d], b"a.png");
    let plain = b"form-data; name=\"note\"";
    assert!(!is_file(plain));
    let ((a, b), f) = get_config_from_disposition(plain, false).unwrap();
    assert_eq!(&plain[a..b], b"note");
    assert!(f.is_none());
    assert!(get_config_from_disposition(b"form-data", false).is_none());
    assert!(get_config_from_disposition(b"name=\"x\"", true).is_none());
}

#[test]
fn text_part_value() {
    let (name, value) = text_field(b"Content-Disposition: form-data; name=\"n\"\r\n\r\nv 1\r\n").unwrap();
    assert_eq!(name, "n");
    assert_eq!(value, "v 1");
    assert!(text_field(b"Content-Disposition: form-data; name=\"n\"\r\nv").is_none());
    assert!(text_field(b"form-data\r\n\r\nv\r\n").is_none());
}

#[test]
fn extension_and_content_type_of_parts() {
    assert_eq!(get_file_extension(b"a.tar.gz"), 5);
    assert_eq!(get_file_extension(b"noext"), 5);
    assert_eq!(parse_file_content_type(b"Content-Type:  image/png "), "image/png");
    assert_eq!(parse_file_content_type(b"no colon"), "");
    assert_eq!(parse_file_content_type(b"Content-Type: \xff"), "");
    assert_eq!(spool_path("up", "id", "photo.jpeg"), "up/id.jpeg");
    assert_eq!(spool_path("up", "id", "README"), "up/id");
}

#[test]
fn file_data_scan() {
    let delim = b"\r\n--b";
    let s = scan_file_data(b"abc", delim);
    assert_eq!((s.write, s.consume), (3, 3));
    assert!(matches!(s.outcome, ScanOutcome::NeedMore));
    let s = scan_file_data(b"ab\rc", delim);
    assert_eq!((s.write, s.consume), (3, 3));
    assert!(matches!(s.outcome, ScanOutcome::Continue));
    let s = scan_file_data(b"ab\r\n--b--", delim);
    assert_eq!((s.write, s.consume), (2, 4));
    assert!(matches!(s.outcome, ScanOutcome::Finished));
    let s = scan_file_data(b"ab\r\nxyzw", delim);
    assert_eq!((s.write, s.consume), (4, 4));
    assert!(matches!(s.outcome, ScanOutcome::Continue));
    let s = scan_file_data(b"ab\r\n-", delim);
    assert_eq!((s.write, s.consume), (2, 2));
    assert!(matches!(s.outcome, ScanOutcome::NeedMore));
    let s = scan_file_data(b"ab\r", delim);
    assert_eq!((s.write, s.consume), (2, 2));
    assert!(matches!(s.outcome, ScanOutcome::NeedMore));
}

#[test]
fn text_field_overrides_file_field_of_same_name() {
    let body = b"--b\r\nContent-Disposition: form-data; name=\"f\"; filename=\"x.txt\"\r\n\r\nfile\r\n--b\r\nContent-Disposition: form-data; name=\"f\"\r\n\r\ntext\r\n--b--";
    let mut r = MultipartReader::new(b"--b".to_vec(), body.to_vec(), 0, 8, "d".to_string());
    let out = drive(&mut r, body, body.len());
    assert!(out.done);
    let form = r.into_form();
    assert_eq!(form.len(), 1);
    assert!(matches!(form.entry(0).1, MultipleFormData::Text(t) if t == "text"));
}

#[test]
fn text_with_dashes_and_breaks_and_file_without_type() {
    let body = b"--b\r\nContent-Disposition: form-data; name=\"t\"\r\n\r\na-b\r\nc\r\n--b\r\nContent-Disposition: form-data; name=\"f\"; filename=\"x.bin\"\r\n\r\nzz\r\n--b--\r\n";
    for increase in [1usize, 3, 64] {
        let mut r = MultipartReader::new(b"--b".to_vec(), Vec::new(), body.len(), increase, "d".to_string());
        let out = drive(&mut r, body, 0);
        assert!(out.done);
        let (_, data) = out.files.iter().next().unwrap();
        assert_eq!(data, &b"zz".to_vec());
        let head = parse_header(b"POST /up HTTP/1.1\r\nHost: x").unwrap();
        let req = Request::new(head, BodyContent::Multi(r.into_form()));
        assert_eq!(req.get_query("t"), Some("a-b\r\nc"));
        assert_eq!(req.get_file("f").unwrap().content_type, "");
    }
}

#[test]
fn waiting_keeps_buffered_bytes() {
    let mut r = MultipartReader::new(b"--b".to_vec(), b"--".to_vec(), 10, 4, "d".to_string());
    assert!(matches!(r.step(), MultipartAction::Read(4)));
    assert_eq!(r.buf, b"--".to_vec());
    let mut done = MultipartReader::new(b"--b".to_vec(), b"--".to_vec(), 0, 4, "d".to_string());
    assert!(matches!(done.step(), MultipartAction::Fail(None)));
}

#[test]
fn content_type_trimmed_of_unicode_space() {
    assert_eq!(parse_file_content_type("Content-Type:\u{a0}image/png\u{3000}".as_bytes()), "image/png");
}
