//! `multipart/form-data` bodies, read as a stream. Text fields are kept in
//! memory; file fields are spooled to disk as they arrive, so that no more
//! than a read's worth of an upload is held at once.
//!
//! The reader decides; its caller does the I/O. [`MultipartReader::step`]
//! says what to do next (read, open the spool file, write to it, ...), the
//! caller does it and hands read bytes back with [`MultipartReader::feed`],
//! or reports a failed read or write with [`MultipartReader::fail`].
use vstd::prelude::*;
use vstd::utf8::valid_utf8;
use crate::bytes::{
    append_range, copy_range, find_from, find_spec, last_index, match_at, matches_at,
    rfind_byte, trim_bounds, trim_spec,
};
use crate::form::{put, FieldMap};
use crate::text::{
    cut_ok, lemma_utf8_of_valid, lemma_valid_piece, lemma_valid_suffix, str_bytes,
    string_of_range, utf8_of, utf8_string,
};

verus! {

/// A file field of a multipart form, already written to disk.
pub struct MultipleFormFile {
    pub filename: String,
    pub filepath: String,
    pub content_type: String,
    pub form_indice: String,
}

/// One field of a multipart form.
pub enum MultipleFormData {
    Text(String),
    File(MultipleFormFile),
}

impl View for MultipleFormData {
    type V = MultipleFormData;

    open spec fn view(&self) -> MultipleFormData {
        *self
    }
}

/// `name="`
pub open spec fn name_key() -> Seq<u8> {
    seq![110u8, 97, 109, 101, 61, 34]
}

/// `filename="`
pub open spec fn filename_key() -> Seq<u8> {
    seq![102u8, 105, 108, 101, 110, 97, 109, 101, 61, 34]
}

pub open spec fn crlf() -> Seq<u8> {
    seq![13u8, 10]
}

pub open spec fn crlf2() -> Seq<u8> {
    seq![13u8, 10, 13, 10]
}

/// Where the quoted value that follows the first `key` at or after `from`
/// lies: from just past the key to the next `"`.
pub open spec fn quoted_after(s: Seq<u8>, key: Seq<u8>, from: int) -> Option<(usize, usize)> {
    match find_spec(s, key, from) {
        Some(p) => match find_spec(s, seq![34u8], p + key.len()) {
            Some(q) => Some(((p + key.len()) as usize, q as usize)),
            None => None,
        },
        None => None,
    }
}

fn quoted_value(s: &[u8], key: &[u8], from: usize) -> (r: Option<(usize, usize)>)
    ensures
        r == quoted_after(s@, key@, from as int),
        r matches Some(x) ==> x.0 <= x.1 < s@.len() && x.0 >= key@.len() && s@[x.1 as int] == 34
            && s@.subrange(x.0 - key@.len(), x.0 as int) == key@,
{
    match find_from(s, key, from) {
        Some(p) => {
            assert(matches_at(s@, key@, p as int));
            assert(s@.len() == s.len());
            let a = p + key.len();
            let quote: [u8; 1] = [34];
            assert(quote@ =~= seq![34u8]);
            match find_from(s, quote.as_slice(), a) {
                Some(q) => {
                    assert(s@.subrange(q as int, q + 1)[0] == 34u8);
                    Some((a, q))
                },
                None => None,
            }
        },
        None => None,
    }
}

/// What a part's `Content-Disposition` line names: the field, and for a
/// file the name the client gave the file, each as a range of the line.
pub open spec fn disposition_spec(s: Seq<u8>, is_file: bool) -> Option<
    ((usize, usize), Option<(usize, usize)>),
> {
    match quoted_after(s, name_key(), 0) {
        None => None,
        Some(n) => if !is_file {
            Some((n, None))
        } else {
            match quoted_after(s, filename_key(), n.1 as int) {
                None => None,
                Some(f) => Some((n, Some(f))),
            }
        },
    }
}

/// The field name of a disposition line and, for a file, its file name.
pub fn get_config_from_disposition(s: &[u8], is_file: bool) -> (r: Option<
    ((usize, usize), Option<(usize, usize)>),
>)
    ensures
        r == disposition_spec(s@, is_file),
        r matches Some(x) ==> x.0.0 <= x.0.1 < s@.len() && s@[x.0.0 - 1] == 34 && s@[x.0.1 as int]
            == 34,
        r matches Some(x) ==> (x.1 matches Some(f) ==> f.0 <= f.1 < s@.len() && s@[f.0 - 1] == 34
            && s@[f.1 as int] == 34),
{
    let nk: [u8; 6] = [110, 97, 109, 101, 61, 34];
    assert(nk@ =~= name_key());
    match quoted_value(s, nk.as_slice(), 0) {
        None => None,
        Some(n) => {
            assert(s@.subrange(n.0 - 6, n.0 as int)[5] == 34u8);
            if !is_file {
                Some((n, None))
            } else {
                let fk: [u8; 10] = [102, 105, 108, 101, 110, 97, 109, 101, 61, 34];
                assert(fk@ =~= filename_key());
                match quoted_value(s, fk.as_slice(), n.1) {
                    None => None,
                    Some(f) => {
                        assert(s@.subrange(f.0 - 10, f.0 as int)[9] == 34u8);
                        Some((n, Some(f)))
                    },
                }
            }
        },
    }
}

/// Whether a disposition line describes a file: it holds `filename="`.
pub fn is_file(slice: &[u8]) -> (r: bool)
    ensures
        r == find_spec(slice@, filename_key(), 0) is Some,
{
    let fk: [u8; 10] = [102, 105, 108, 101, 110, 97, 109, 101, 61, 34];
    assert(fk@ =~= filename_key());
    find_from(slice, fk.as_slice(), 0).is_some()
}

/// Where a file name's extension starts: at its last `.`, or at its end.
pub open spec fn extension_start(f: Seq<u8>) -> int {
    let i = last_index(f, 46, f.len() as int);
    if i >= 0 {
        i
    } else {
        f.len() as int
    }
}

/// The extension of a file name, dot included; empty where it has no dot.
pub open spec fn extension_of(f: Seq<u8>) -> Seq<u8> {
    f.subrange(extension_start(f), f.len() as int)
}

/// Where the extension of a file name starts.
pub fn get_file_extension(f: &[u8]) -> (r: usize)
    ensures
        r as int == extension_start(f@),
        r <= f@.len(),
        r < f@.len() ==> f@[r as int] == 46,
{
    match rfind_byte(f, 46) {
        Some(i) => i,
        None => f.len(),
    }
}

/// A lower-case hexadecimal digit or a hyphen.
pub open spec fn is_uuid_char(c: char) -> bool {
    ('0' <= c && c <= '9') || ('a' <= c && c <= 'f') || c == '-'
}

/// Relies on uuid's `Uuid::new_v4` and its `Display`: a fresh random
/// identifier, written hyphenated in lower case, 36 characters long.
#[verifier::external_body]
fn new_spool_name() -> (r: String)
    ensures
        r@.len() == 36,
        forall|i: int| 0 <= i < 36 ==> is_uuid_char(#[trigger] r@[i]),
{
    uuid::Uuid::new_v4().to_string()
}

/// Where an upload is spooled: `dir/NAME.EXT`, where `NAME` is a fresh name
/// and `.EXT` the extension of the uploaded file's name.
pub fn spool_path(dir: &str, name: &str, filename: &str) -> (r: String)
    ensures
        exists|e: Seq<char>|
            utf8_of(e) == extension_of(utf8_of(filename@)) && r@ == dir@ + seq!['/'] + name@ + e,
{
    let fb = str_bytes(filename);
    let start = get_file_extension(fb);
    proof {
        lemma_utf8_of_valid(filename@);
        assert(cut_ok(fb@, start as int));
        lemma_valid_suffix(fb@, start as int);
    }
    let ext = match string_of_range(fb, start, fb.len()) {
        Some(e) => e,
        None => String::new(),
    };
    let mut r = String::from_str(dir);
    r.append("/");
    r.append(name);
    r.append(ext.as_str());
    proof {
        reveal_strlit("/");
        assert(r@ =~= dir@ + seq!['/'] + name@ + ext@);
    }
    r
}

/// The value of a part's `Content-Type` line, given the part's header lines
/// without the blank line that ends them.
pub open spec fn content_type_value(h: Seq<u8>) -> Seq<u8> {
    match find_spec(h, seq![58u8], 0) {
        Some(p) => trim_spec(h.subrange(p + 1, h.len() as int)),
        None => Seq::empty(),
    }
}

/// The content type that a file part's header lines give: their
/// `Content-Type` value where the lines and the value are UTF-8, else empty.
pub open spec fn content_type_text(h: Seq<u8>) -> Seq<u8> {
    if valid_utf8(h) && valid_utf8(content_type_value(h)) {
        content_type_value(h)
    } else {
        Seq::empty()
    }
}

/// The content type of a file part.
pub fn parse_file_content_type(h: &[u8]) -> (r: String)
    ensures
        utf8_of(r@) == content_type_text(h@),
{
    if utf8_string(h).is_none() {
        let r = String::new();
        assert(utf8_of(r@) =~= Seq::<u8>::empty()) by {
            assert(r@ =~= Seq::<char>::empty());
        }
        return r;
    }
    let colon: [u8; 1] = [58];
    assert(colon@ =~= seq![58u8]);
    match find_from(h, colon.as_slice(), 0) {
        None => {
            let r = String::new();
            assert(utf8_of(r@) =~= Seq::<u8>::empty()) by {
                assert(r@ =~= Seq::<char>::empty());
            }
            r
        },
        Some(p) => {
            assert(matches_at(h@, colon@, p as int));
            assert(h@.len() == h.len());
            let rest = copy_range(h, p + 1, h.len());
            let (x, y) = trim_bounds(rest.as_slice());
            match string_of_range(rest.as_slice(), x, y) {
                Some(s) => s,
                None => {
                    let r = String::new();
                    assert(utf8_of(r@) =~= Seq::<u8>::empty()) by {
                        assert(r@ =~= Seq::<char>::empty());
                    }
                    r
                },
            }
        },
    }
}

/// The name and value of a text part, from its header lines and the bytes
/// that follow them up to the next boundary: the value is what follows the
/// blank line, without the line break that belongs to the boundary.
pub open spec fn text_field_spec(c: Seq<u8>) -> Option<(Seq<u8>, Seq<u8>)> {
    if !valid_utf8(c) {
        None
    } else {
        match find_spec(c, crlf2(), 0) {
            None => None,
            Some(p) => if c.len() < p + 6 {
                None
            } else {
                match quoted_after(c.subrange(0, p), name_key(), 0) {
                    None => None,
                    Some(n) => if valid_utf8(c.subrange(p + 4, c.len() - 2)) {
                        Some((c.subrange(n.0 as int, n.1 as int), c.subrange(p + 4, c.len() - 2)))
                    } else {
                        None
                    },
                }
            },
        }
    }
}

/// Reads a text part: its name and its value.
pub fn text_field(c: &[u8]) -> (r: Option<(String, String)>)
    ensures
        match r {
            Some(x) => text_field_spec(c@) == Some((utf8_of(x.0@), utf8_of(x.1@))),
            None => text_field_spec(c@) is None,
        },
{
    if utf8_string(c).is_none() {
        return None;
    }
    let pat: [u8; 4] = [13, 10, 13, 10];
    assert(pat@ =~= crlf2());
    let p = match find_from(c, pat.as_slice(), 0) {
        Some(p) => p,
        None => return None,
    };
    if c.len() - p < 6 {
        return None;
    }
    let head = copy_range(c, 0, p);
    let nk: [u8; 6] = [110, 97, 109, 101, 61, 34];
    assert(nk@ =~= name_key());
    let n = match quoted_value(head.as_slice(), nk.as_slice(), 0) {
        Some(n) => n,
        None => return None,
    };
    let value = match string_of_range(c, p + 4, c.len() - 2) {
        Some(v) => v,
        None => return None,
    };
    proof {
        assert(head@.subrange(n.0 - 6, n.0 as int)[5] == 34u8);
        assert(cut_ok(c@, n.0 as int));
        assert(cut_ok(c@, n.1 as int));
        lemma_valid_piece(c@, n.0 as int, n.1 as int);
        assert(head@.subrange(n.0 as int, n.1 as int) =~= c@.subrange(n.0 as int, n.1 as int));
    }
    let name = match string_of_range(head.as_slice(), n.0, n.1) {
        Some(s) => s,
        None => return None,
    };
    Some((name, value))
}

/// How much of the buffered bytes of a file part may go to the file.
pub enum ScanOutcome {
    /// More bytes are needed before anything else can be decided.
    NeedMore,
    /// Go on scanning what is left.
    Continue,
    /// The delimiter of the next boundary starts where writing stops.
    Finished,
}

pub struct FileScan {
    pub write: usize,
    pub consume: usize,
    pub outcome: ScanOutcome,
}

/// The decision on a file part's buffered bytes, given the delimiter
/// `\r\n--BOUNDARY`: everything before the first `\r` is file data; a `\r` not
/// followed by `\n` is data too; a `\r\n` is data unless the delimiter starts
/// there, which ends the part and leaves the boundary in the buffer.
pub open spec fn scan_spec(buf: Seq<u8>, delim: Seq<u8>) -> (int, int, ScanOutcome) {
    match find_spec(buf, seq![13u8], 0) {
        None => (buf.len() as int, buf.len() as int, ScanOutcome::NeedMore),
        Some(p) => if p + 1 == buf.len() {
            (p, p, ScanOutcome::NeedMore)
        } else if buf[p + 1] != 10 {
            (p + 1, p + 1, ScanOutcome::Continue)
        } else if buf.len() - p >= delim.len() {
            if matches_at(buf, delim, p) {
                (p, p + 2, ScanOutcome::Finished)
            } else {
                (p + 2, p + 2, ScanOutcome::Continue)
            }
        } else {
            (p, p, ScanOutcome::NeedMore)
        },
    }
}

/// Scans the buffered bytes of a file part.
pub fn scan_file_data(buf: &[u8], delim: &[u8]) -> (r: FileScan)
    ensures
        scan_spec(buf@, delim@) == (r.write as int, r.consume as int, r.outcome),
        r.write <= r.consume <= buf@.len(),
{
    let cr: [u8; 1] = [13];
    assert(cr@ =~= seq![13u8]);
    match find_from(buf, cr.as_slice(), 0) {
        None => FileScan { write: buf.len(), consume: buf.len(), outcome: ScanOutcome::NeedMore },
        Some(p) => {
            assert(matches_at(buf@, cr@, p as int));
            assert(buf@.len() == buf.len());
            if p + 1 == buf.len() {
                FileScan { write: p, consume: p, outcome: ScanOutcome::NeedMore }
            } else if buf[p + 1] != 10 {
                FileScan { write: p + 1, consume: p + 1, outcome: ScanOutcome::Continue }
            } else if buf.len() - p >= delim.len() {
                if match_at(buf, delim, p) {
                    FileScan { write: p, consume: p + 2, outcome: ScanOutcome::Finished }
                } else {
                    FileScan { write: p + 2, consume: p + 2, outcome: ScanOutcome::Continue }
                }
            } else {
                FileScan { write: p, consume: p, outcome: ScanOutcome::NeedMore }
            }
        },
    }
}

/// What the caller of a [`MultipartReader`] does next.
pub enum MultipartAction {
    /// Read at least one and at most this many bytes of the body and `feed` them.
    Read(usize),
    /// Create the spool file at this path.
    OpenFile(String),
    /// Append these bytes to the open spool file.
    Write(Vec<u8>),
    /// Append these bytes to the open spool file, then close it.
    WriteAndClose(Vec<u8>),
    /// Call `step` again.
    Continue,
    /// The form is complete; read and drop this many bytes left of the body.
    Done(usize),
    /// The body is malformed or cut short; delete this spool file, if any.
    Fail(Option<String>),
}

/// Where a multipart reader stands.
pub enum PartState {
    /// Expecting `--BOUNDARY`, then `\r\n` or the closing `--`.
    SeekBoundary,
    /// Expecting the `Content-Disposition` line of a part.
    SeekHeaders,
    /// In the value of a text part; holds its disposition line.
    TextBody(Vec<u8>),
    /// In the header lines of a file part that follow its disposition line.
    FileHeaders(MultipleFormFile),
    /// In the data of a file part, spooled to this path.
    FileBody(String),
    Done,
    Failed,
}

/// A streaming reader of a `multipart/form-data` body.
pub struct MultipartReader {
    /// `--BOUNDARY`
    pub boundary: Vec<u8>,
    /// `\r\n--BOUNDARY`
    pub delim: Vec<u8>,
    /// Bytes read and not yet consumed.
    pub buf: Vec<u8>,
    /// Bytes of the body not read yet.
    pub need: usize,
    /// How many bytes to ask for when more are needed.
    pub increase: usize,
    pub upload_directory: String,
    pub state: PartState,
    /// Text fields, name and value, in arrival order.
    pub texts: Vec<(String, String)>,
    /// File fields.
    pub files: FieldMap<MultipleFormData>,
}

/// A step in a file part: the bytes before the write point go to the file,
/// the consumed ones leave the buffer, and the part ends exactly when the
/// delimiter was found.
pub open spec fn file_step(
    buf: Seq<u8>,
    delim: Seq<u8>,
    r: MultipartAction,
    new_buf: Seq<u8>,
    ends: bool,
) -> bool {
    let (w, c, o) = scan_spec(buf, delim);
    (w > 0 || o is Finished) ==> {
        &&& new_buf == buf.subrange(c, buf.len() as int)
        &&& ends == o is Finished
        &&& match r {
            MultipartAction::Write(d) => !ends && d@ == buf.subrange(0, w),
            MultipartAction::WriteAndClose(d) => ends && d@ == buf.subrange(0, w),
            _ => false,
        }
    }
}

/// File fields with the text fields set after them in order.
pub open spec fn with_texts(
    s: Seq<(Seq<char>, MultipleFormData)>,
    t: Seq<(String, String)>,
) -> Seq<(Seq<char>, MultipleFormData)>
    decreases t.len(),
{
    if t.len() == 0 {
        s
    } else {
        put(with_texts(s, t.drop_last()), t.last().0@, MultipleFormData::Text(t.last().1))
    }
}

/// Waiting for bytes in state `st`: while the body has bytes left, ask for
/// `increase` of them, or all that are left where fewer remain, and keep
/// everything else; where none are left, fail, naming the spool file of a
/// file part.
pub open spec fn waits(
    old_r: &MultipartReader,
    new_r: &MultipartReader,
    st: PartState,
    r: MultipartAction,
) -> bool {
    &&& new_r.buf == old_r.buf
    &&& new_r.need == old_r.need
    &&& new_r.texts == old_r.texts
    &&& new_r.files == old_r.files
    &&& if old_r.need > 0 {
        &&& new_r.state == st
        &&& r == MultipartAction::Read(
            if old_r.increase < old_r.need {
                old_r.increase
            } else {
                old_r.need
            },
        )
    } else {
        &&& new_r.state is Failed
        &&& r == MultipartAction::Fail(
            match st {
                PartState::FileBody(p) => Some(p),
                _ => None,
            },
        )
    }
}

/// In a file part, nothing can be written yet: wait for bytes.
pub open spec fn file_waits(
    old_r: &MultipartReader,
    new_r: &MultipartReader,
    path: String,
    r: MultipartAction,
) -> bool {
    let (w, c, o) = scan_spec(old_r.buf@, old_r.delim@);
    !(w > 0 || o is Finished) ==> waits(old_r, new_r, PartState::FileBody(path), r)
}

/// A step keeps the reader's settings and the count of body bytes not yet
/// read.
pub open spec fn keeps_frame(old_r: &MultipartReader, new_r: &MultipartReader) -> bool {
    &&& new_r.upload_directory == old_r.upload_directory
    &&& new_r.increase == old_r.increase
    &&& new_r.need == old_r.need
    &&& new_r.boundary == old_r.boundary
    &&& new_r.delim == old_r.delim
}

/// A step at a boundary: `--BOUNDARY--` ends the form, `--BOUNDARY` and two
/// more bytes open a part, anything else is malformed.
pub open spec fn boundary_step(
    old_r: &MultipartReader,
    new_r: &MultipartReader,
    r: MultipartAction,
) -> bool {
    let b = old_r.boundary@;
    let buf = old_r.buf@;
    if buf.len() < b.len() + 2 {
        waits(old_r, new_r, PartState::SeekBoundary, r)
    } else if !matches_at(buf, b, 0) {
        r == MultipartAction::Fail(None) && new_r.state is Failed
    } else if buf[b.len() as int] == 45 && buf[b.len() as int + 1] == 45 {
        r == MultipartAction::Done(old_r.need) && new_r.state is Done
    } else {
        r is Continue && new_r.state is SeekHeaders && new_r.buf@ == buf.subrange(
            b.len() as int + 2,
            buf.len() as int,
        )
    }
}

/// A step at the head of a part: its first line is its disposition; a file
/// part gets its spool path, `upload_directory/NAME.EXT` with a fresh
/// 36-character `NAME` and the extension of the file name.
pub open spec fn headers_step(
    old_r: &MultipartReader,
    new_r: &MultipartReader,
    r: MultipartAction,
) -> bool {
    let buf = old_r.buf@;
    match find_spec(buf, crlf(), 0) {
        None => waits(old_r, new_r, PartState::SeekHeaders, r),
        Some(p) => {
            let line = buf.subrange(0, p + 2);
            if find_spec(line, filename_key(), 0) is None {
                &&& r is Continue
                &&& new_r.buf@ == buf.subrange(p + 2, buf.len() as int)
                &&& new_r.state matches PartState::TextBody(d) && d@ == line
            } else {
                match disposition_spec(line, true) {
                    Some((n, Some(f))) => {
                        let name = line.subrange(n.0 as int, n.1 as int);
                        let file = line.subrange(f.0 as int, f.1 as int);
                        if valid_utf8(name) && valid_utf8(file) {
                            &&& r is Continue
                            &&& new_r.buf@ == buf.subrange(p + 2, buf.len() as int)
                            &&& new_r.state matches PartState::FileHeaders(x) && {
                                &&& utf8_of(x.form_indice@) == name
                                &&& utf8_of(x.filename@) == file
                                &&& x.content_type@.len() == 0
                                &&& exists|id: Seq<char>, e: Seq<char>|
                                    #![trigger id + e]
                                    id.len() == 36 && utf8_of(e) == extension_of(file)
                                        && x.filepath@ == old_r.upload_directory@ + seq!['/'] + (
                                    id + e)
                            }
                        } else {
                            r == MultipartAction::Fail(None) && new_r.state is Failed
                        }
                    },
                    _ => r == MultipartAction::Fail(None) && new_r.state is Failed,
                }
            }
        },
    }
}

/// A step in a text part: its value runs to the next boundary.
pub open spec fn text_step(
    old_r: &MultipartReader,
    new_r: &MultipartReader,
    disp: Vec<u8>,
    r: MultipartAction,
) -> bool {
    let buf = old_r.buf@;
    match find_spec(buf, old_r.boundary@, 0) {
        None => waits(old_r, new_r, PartState::TextBody(disp), r),
        Some(p) => match text_field_spec(disp@ + buf.subrange(0, p)) {
            Some(f) => {
                &&& r is Continue
                &&& new_r.state is SeekBoundary
                &&& new_r.buf@ == buf.subrange(p, buf.len() as int)
                &&& new_r.texts@.len() == old_r.texts@.len() + 1
                &&& new_r.texts@.drop_last() == old_r.texts@
                &&& utf8_of(new_r.texts@.last().0@) == f.0
                &&& utf8_of(new_r.texts@.last().1@) == f.1
            },
            None => r == MultipartAction::Fail(None) && new_r.state is Failed && new_r.texts
                == old_r.texts,
        },
    }
}

/// A step in the header lines of a file part that follow its disposition:
/// they end at a blank line, and may name a content type. Then the field is
/// recorded and its spool file opened.
pub open spec fn file_headers_step(
    old_r: &MultipartReader,
    new_r: &MultipartReader,
    file: MultipleFormFile,
    r: MultipartAction,
) -> bool {
    let buf = old_r.buf@;
    let end: Option<int> = if buf.len() < 2 {
        None
    } else if buf[0] == 13 && buf[1] == 10 {
        Some(2)
    } else {
        match find_spec(buf, crlf2(), 0) {
            Some(p) => Some(p + 4),
            None => None,
        }
    };
    match end {
        None => waits(old_r, new_r, PartState::FileHeaders(file), r),
        Some(c) => {
            &&& r matches MultipartAction::OpenFile(x) && x@ == file.filepath@
            &&& new_r.state matches PartState::FileBody(x) && x@ == file.filepath@
            &&& new_r.buf@ == buf.subrange(c, buf.len() as int)
            &&& exists|f2: MultipleFormFile|
                #![trigger put(old_r.files@, file.form_indice@, MultipleFormData::File(f2))]
                new_r.files@ == put(old_r.files@, file.form_indice@, MultipleFormData::File(f2))
                    && f2.filename == file.filename && f2.filepath == file.filepath
                    && f2.form_indice == file.form_indice && (c > 2 ==> utf8_of(
                    f2.content_type@,
                ) == content_type_text(buf.subrange(0, c - 4))) && (c == 2
                    ==> f2.content_type@.len() == 0)
        },
    }
}

impl MultipartReader {
    /// The buffer delimiter matches the boundary, and reads make progress.
    pub open spec fn wf(&self) -> bool {
        self.delim@ == crlf() + self.boundary@ && self.increase > 0
    }

    /// A reader for a body delimited by `boundary` (`--` and the declared
    /// boundary), that starts with `initial` and has `need` bytes more.
    pub fn new(
        boundary: Vec<u8>,
        initial: Vec<u8>,
        need: usize,
        increase: usize,
        upload_directory: String,
    ) -> (r: Self)
        requires
            increase > 0,
        ensures
            r.wf(),
            r.state is SeekBoundary,
            r.boundary@ == boundary@,
            r.buf@ == initial@,
            r.need == need,
            r.increase == increase,
            r.upload_directory == upload_directory,
            r.texts@.len() == 0,
            r.files@.len() == 0,
    {
        let mut delim: Vec<u8> = Vec::new();
        delim.push(13);
        delim.push(10);
        append_range(&mut delim, boundary.as_slice(), 0, boundary.len());
        assert(boundary@.subrange(0, boundary@.len() as int) =~= boundary@);
        assert(delim@ =~= crlf() + boundary@);
        MultipartReader {
            boundary,
            delim,
            buf: initial,
            need,
            increase,
            upload_directory,
            state: PartState::SeekBoundary,
            texts: Vec::new(),
            files: FieldMap::new(),
        }
    }

    /// Takes bytes that were read from the body.
    pub fn feed(&mut self, data: &[u8])
        requires
            data@.len() <= old(self).need,
        ensures
            final(self).buf@ == old(self).buf@ + data@,
            final(self).need == old(self).need - data@.len(),
            final(self).state == old(self).state,
            final(self).texts == old(self).texts,
            final(self).files == old(self).files,
            final(self).upload_directory == old(self).upload_directory,
            final(self).boundary == old(self).boundary,
            final(self).delim == old(self).delim,
            final(self).increase == old(self).increase,
    {
        append_range(&mut self.buf, data, 0, data.len());
        assert(data@.subrange(0, data@.len() as int) =~= data@);
        self.need = self.need - data.len();
    }

    /// Gives up after a failed read or write. Where a spool file was open,
    /// its path is returned, so that the caller deletes the partial file.
    pub fn fail(&mut self) -> (r: Option<String>)
        ensures
            final(self).texts == old(self).texts,
            final(self).files == old(self).files,
            final(self).upload_directory == old(self).upload_directory,
            final(self).state is Failed,
            final(self).buf == old(self).buf,
            final(self).need == old(self).need,
            final(self).boundary == old(self).boundary,
            final(self).delim == old(self).delim,
            final(self).increase == old(self).increase,
            match old(self).state {
                PartState::FileBody(p) => r == Some(p),
                _ => r is None,
            },
    {
        let mut st = PartState::Failed;
        std::mem::swap(&mut st, &mut self.state);
        match st {
            PartState::FileBody(p) => Some(p),
            _ => None,
        }
    }

    /// Asks for more bytes, or fails where the body has none left.
    fn more(&mut self, want: usize) -> (r: MultipartAction)
        requires
            want > 0,
        ensures
            final(self).texts == old(self).texts,
            final(self).files == old(self).files,
            final(self).upload_directory == old(self).upload_directory,
            final(self).boundary == old(self).boundary,
            final(self).delim == old(self).delim,
            final(self).increase == old(self).increase,
            final(self).buf == old(self).buf,
            final(self).need == old(self).need,
            old(self).need > 0 ==> final(self).state == old(self).state && r == MultipartAction::Read(
                if want < old(self).need {
                    want
                } else {
                    old(self).need
                },
            ),
            old(self).need == 0 ==> final(self).state is Failed && match old(self).state {
                PartState::FileBody(p) => r == MultipartAction::Fail(Some(p)),
                _ => r == MultipartAction::Fail(None),
            },
    {
        if self.need == 0 {
            MultipartAction::Fail(self.fail())
        } else if want < self.need {
            MultipartAction::Read(want)
        } else {
            MultipartAction::Read(self.need)
        }
    }

    /// Drops the first `n` buffered bytes.
    fn consume(&mut self, n: usize)
        requires
            n <= old(self).buf@.len(),
        ensures
            final(self).texts == old(self).texts,
            final(self).files == old(self).files,
            final(self).upload_directory == old(self).upload_directory,
            final(self).buf@ == old(self).buf@.subrange(n as int, old(self).buf@.len() as int),
            final(self).state == old(self).state,
            final(self).boundary == old(self).boundary,
            final(self).delim == old(self).delim,
            final(self).increase == old(self).increase,
            final(self).need == old(self).need,
    {
        let rest = copy_range(self.buf.as_slice(), n, self.buf.len());
        self.buf = rest;
    }

    /// Decides what to do next.
    pub fn step(&mut self) -> (r: MultipartAction)
        requires
            old(self).wf(),
        ensures
            final(self).wf(),
            keeps_frame(old(self), final(self)),
            !(old(self).state is TextBody) ==> final(self).texts == old(self).texts,
            !(old(self).state is FileHeaders) ==> final(self).files == old(self).files,
            r matches MultipartAction::Read(n) ==> 0 < n <= old(self).need,
            old(self).state is Done ==> r == MultipartAction::Done(old(self).need),
            old(self).state is Failed ==> r == MultipartAction::Fail(None),
            old(self).state is SeekBoundary ==> boundary_step(old(self), final(self), r),
            old(self).state is SeekHeaders ==> headers_step(old(self), final(self), r),
            old(self).state matches PartState::TextBody(d) ==> text_step(old(self), final(self), d, r),
            old(self).state matches PartState::FileHeaders(f) ==> file_headers_step(
                old(self),
                final(self),
                f,
                r,
            ),
            match old(self).state {
                PartState::FileBody(p) => {
                    &&& (r is Fail ==> r == MultipartAction::Fail(Some(p)))
                    &&& file_waits(old(self), final(self), p, r)
                    &&& file_step(
                        old(self).buf@,
                        old(self).delim@,
                        r,
                        final(self).buf@,
                        final(self).state is SeekBoundary,
                    )
                },
                _ => true,
            },
    {
        let mut st = PartState::Failed;
        std::mem::swap(&mut st, &mut self.state);
        match st {
            PartState::SeekBoundary => self.at_boundary(),
            PartState::SeekHeaders => self.at_headers(),
            PartState::TextBody(disp) => self.in_text(disp),
            PartState::FileHeaders(file) => self.in_file_headers(file),
            PartState::FileBody(path) => self.in_file(path),
            PartState::Done => {
                self.state = PartState::Done;
                MultipartAction::Done(self.need)
            },
            PartState::Failed => {
                self.state = PartState::Failed;
                MultipartAction::Fail(None)
            },
        }
    }

    fn at_boundary(&mut self) -> (r: MultipartAction)
        requires
            old(self).wf(),
        ensures
            final(self).wf(),
            final(self).boundary == old(self).boundary,
            r matches MultipartAction::Read(n) ==> 0 < n <= old(self).need,
            keeps_frame(old(self), final(self)),
            final(self).texts == old(self).texts,
            final(self).files == old(self).files,
            boundary_step(old(self), final(self), r),
    {
        self.state = PartState::SeekBoundary;
        let blen = self.boundary.len();
        if self.buf.len() < blen || self.buf.len() - blen < 2 {
            return self.more(self.increase);
        }
        if !match_at(self.buf.as_slice(), self.boundary.as_slice(), 0) {
            self.state = PartState::Failed;
            return MultipartAction::Fail(None);
        }
        if self.buf[blen] == 45 && self.buf[blen + 1] == 45 {
            self.state = PartState::Done;
            return MultipartAction::Done(self.need);
        }
        self.consume(blen + 2);
        self.state = PartState::SeekHeaders;
        MultipartAction::Continue
    }

    fn at_headers(&mut self) -> (r: MultipartAction)
        requires
            old(self).wf(),
        ensures
            final(self).wf(),
            final(self).boundary == old(self).boundary,
            r matches MultipartAction::Read(n) ==> 0 < n <= old(self).need,
            keeps_frame(old(self), final(self)),
            final(self).texts == old(self).texts,
            final(self).files == old(self).files,
            headers_step(old(self), final(self), r),
    {
        self.state = PartState::SeekHeaders;
        let pat: [u8; 2] = [13, 10];
        assert(pat@ =~= crlf());
        let p = match find_from(self.buf.as_slice(), pat.as_slice(), 0) {
            Some(p) => p,
            None => {
                return self.more(self.increase);
            },
        };
        assert(matches_at(self.buf@, pat@, p as int));
        assert(self.buf@.len() == self.buf.len());
        let end = p + 2;
        let line = copy_range(self.buf.as_slice(), 0, end);
        self.consume(end);
        if !is_file(line.as_slice()) {
            self.state = PartState::TextBody(line);
            return MultipartAction::Continue;
        }
        let conf = get_config_from_disposition(line.as_slice(), true);
        let (n, f) = match conf {
            Some((n, Some(f))) => (n, f),
            _ => {
                self.state = PartState::Failed;
                return MultipartAction::Fail(None);
            },
        };
        let name = string_of_range(line.as_slice(), n.0, n.1);
        let filename = string_of_range(line.as_slice(), f.0, f.1);
        match (name, filename) {
            (Some(name), Some(filename)) => {
                let uid = new_spool_name();
                let path = spool_path(
                    self.upload_directory.as_str(),
                    uid.as_str(),
                    filename.as_str(),
                );
                proof {
                    let e = choose|e: Seq<char>|
                        utf8_of(e) == extension_of(utf8_of(filename@)) && path@
                            == self.upload_directory@ + seq!['/'] + uid@ + e;
                    assert(path@ =~= self.upload_directory@ + seq!['/'] + (uid@ + e));
                }
                self.state = PartState::FileHeaders(
                    MultipleFormFile {
                        filename,
                        filepath: path,
                        content_type: String::new(),
                        form_indice: name,
                    },
                );
                MultipartAction::Continue
            },
            _ => {
                self.state = PartState::Failed;
                MultipartAction::Fail(None)
            },
        }
    }

    fn in_text(&mut self, disp: Vec<u8>) -> (r: MultipartAction)
        requires
            old(self).wf(),
        ensures
            final(self).wf(),
            final(self).boundary == old(self).boundary,
            r matches MultipartAction::Read(n) ==> 0 < n <= old(self).need,
            keeps_frame(old(self), final(self)),
            final(self).files == old(self).files,
            text_step(old(self), final(self), disp, r),
    {
        let p = match find_from(self.buf.as_slice(), self.boundary.as_slice(), 0) {
            Some(p) => p,
            None => {
                self.state = PartState::TextBody(disp);
                return self.more(self.increase);
            },
        };
        assert(matches_at(self.buf@, self.boundary@, p as int));
        let mut c = disp;
        append_range(&mut c, self.buf.as_slice(), 0, p);
        self.consume(p);
        match text_field(c.as_slice()) {
            Some(field) => {
                self.texts.push(field);
                assert(self.texts@.drop_last() =~= old(self).texts@);
                self.state = PartState::SeekBoundary;
                MultipartAction::Continue
            },
            None => {
                self.state = PartState::Failed;
                MultipartAction::Fail(None)
            },
        }
    }

    fn in_file_headers(&mut self, file: MultipleFormFile) -> (r: MultipartAction)
        requires
            old(self).wf(),
        ensures
            final(self).wf(),
            final(self).boundary == old(self).boundary,
            r matches MultipartAction::Read(n) ==> 0 < n <= old(self).need,
            keeps_frame(old(self), final(self)),
            final(self).texts == old(self).texts,
            file_headers_step(old(self), final(self), file, r),
    {
        if self.buf.len() < 2 {
            self.state = PartState::FileHeaders(file);
            return self.more(self.increase);
        }
        let ghost file0 = file;
        let mut file = file;
        if self.buf[0] == 13 && self.buf[1] == 10 {
            file.content_type = String::new();
            self.consume(2);
        } else {
            let pat: [u8; 4] = [13, 10, 13, 10];
            assert(pat@ =~= crlf2());
            let p = match find_from(self.buf.as_slice(), pat.as_slice(), 0) {
                Some(p) => p,
                None => {
                    self.state = PartState::FileHeaders(file);
                    return self.more(self.increase);
                },
            };
            assert(matches_at(self.buf@, pat@, p as int));
            assert(self.buf@.len() == self.buf.len());
            let h = copy_range(self.buf.as_slice(), 0, p);
            file.content_type = parse_file_content_type(h.as_slice());
            self.consume(p + 4);
        }
        let path = file.filepath.clone();
        let key = file.form_indice.clone();
        let spool = file.filepath.clone();
        let ghost f2 = file;
        self.files.put(key, MultipleFormData::File(file));
        assert(self.files@ == put(old(self).files@, file0.form_indice@, MultipleFormData::File(f2)));
        self.state = PartState::FileBody(spool);
        MultipartAction::OpenFile(path)
    }

    fn in_file(&mut self, path: String) -> (r: MultipartAction)
        requires
            old(self).wf(),
        ensures
            final(self).wf(),
            final(self).boundary == old(self).boundary,
            r matches MultipartAction::Read(n) ==> 0 < n <= old(self).need,
            keeps_frame(old(self), final(self)),
            final(self).texts == old(self).texts,
            final(self).files == old(self).files,
            r is Fail ==> r == MultipartAction::Fail(Some(path)),
            file_waits(old(self), final(self), path, r),
            file_step(old(self).buf@, old(self).delim@, r, final(self).buf@, final(self).state is SeekBoundary),
    {
        let scan = scan_file_data(self.buf.as_slice(), self.delim.as_slice());
        let finished = match scan.outcome {
            ScanOutcome::Finished => true,
            _ => false,
        };
        if scan.write == 0 && !finished {
            self.state = PartState::FileBody(path);
            return self.more(self.increase);
        }
        let data = copy_range(self.buf.as_slice(), 0, scan.write);
        self.consume(scan.consume);
        if finished {
            self.state = PartState::SeekBoundary;
            MultipartAction::WriteAndClose(data)
        } else {
            self.state = PartState::FileBody(path);
            MultipartAction::Write(data)
        }
    }

    /// The fields of the form: the file fields, then the text fields, so
    /// that a text field takes the value of a file field of the same name.
    pub fn into_form(self) -> (r: FieldMap<MultipleFormData>)
        ensures
            r@ == with_texts(self.files@, self.texts@),
    {
        let mut fields = self.files;
        let mut texts = self.texts;
        let ghost t0 = texts@;
        let ghost f0 = fields@;
        let mut i: usize = 0;
        assert(t0.len() == texts.len());
        assert(t0.subrange(0, 0) =~= Seq::<(String, String)>::empty());
        assert(t0.subrange(0, t0.len() as int) =~= t0);
        while texts.len() > 0
            invariant
                0 <= i <= t0.len(),
                t0.len() <= usize::MAX,
                texts@ == t0.subrange(i as int, t0.len() as int),
                fields@ == with_texts(f0, t0.subrange(0, i as int)),
            decreases texts@.len(),
        {
            let (k, v) = texts.remove(0);
            proof {
                assert(t0.subrange(0, i + 1).drop_last() =~= t0.subrange(0, i as int));
                assert(t0[i as int] == (k, v));
            }
            fields.put(k, MultipleFormData::Text(v));
            i = i + 1;
            assert(texts@ =~= t0.subrange(i as int, t0.len() as int));
        }
        assert(t0.subrange(0, i as int) =~= t0);
        fields
    }
}

} // verus!
