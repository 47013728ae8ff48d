//! Responses: what a handler sets (status, headers, a body in memory or a
//! file), and how it goes on the wire (header block, byte ranges, chunked
//! framing, nothing but headers for `HEAD`).
use vstd::prelude::*;
use vstd::utf8::{decode_utf8, encode_utf8_decode_utf8};
use crate::bytes::{
    append_range, bytes_equal, dec_str, hex_str, last_index, push_hex, rfind_byte,
};
use crate::headers::{
    same_name, distinct_names, inserted, lemma_inserted_keeps_absent, lemma_lookup_inserted,
    lemma_names_differ, lookup, name_index, removed, HeaderMap,
};
use crate::mime::{extension_to_content_type, mime_of};
use crate::range::{
    content_range, content_range_text, dec_string, parse_range_content, range_spec, resolve_range,
    window_spec, RangeWindow, ResponseRangeMeta,
};
use crate::table::{get_httpstatus_from_code, is_known_status, status_text};
use crate::text::{lemma_decode_utf8_of, str_bytes, string_bytes, utf8_of};

verus! {

/// The body of a response.
pub enum BodyType {
    /// Bytes held in memory.
    Memory(Vec<u8>),
    /// A file, by path, and its length when it was set.
    File(String, u64),
    Empty,
}

/// Chunked transfer: whether it is on, and the size of each chunk.
pub struct ResponseChunkMeta {
    pub enable: bool,
    pub chunk_size: usize,
}

impl ResponseChunkMeta {
    pub fn new(chunk_size: u32) -> (r: Self)
        ensures
            !r.enable,
            r.chunk_size == chunk_size as usize,
    {
        ResponseChunkMeta { enable: false, chunk_size: chunk_size as usize }
    }
}

/// The response to one request.
pub struct Response {
    pub header_pair: HeaderMap,
    pub version: String,
    pub method: String,
    pub http_state: u16,
    pub body: BodyType,
    pub chunked: ResponseChunkMeta,
    pub range: ResponseRangeMeta,
    /// The headers of the request answered.
    pub request_header: HeaderMap,
}

/// A method name is `HEAD`.
pub open spec fn is_head(m: Seq<char>) -> bool {
    utf8_of(m) == seq![72u8, 69, 65, 68]
}

/// The header value that a decimal numeral makes.
pub open spec fn dec_value_text(n: nat) -> Seq<char> {
    decode_utf8(dec_str(n))
}

/// The size of a body.
pub open spec fn body_size(b: BodyType) -> nat {
    match b {
        BodyType::Memory(v) => v@.len(),
        BodyType::File(_, n) => n as nat,
        BodyType::Empty => 0,
    }
}

/// Two responses agree on all but status, headers and body.
pub open spec fn same_frame(a: &Response, b: &Response) -> bool {
    &&& a.version == b.version
    &&& a.method == b.method
    &&& a.chunked == b.chunked
    &&& a.range == b.range
    &&& a.request_header == b.request_header
}

/// The last component of a path, and its extension as `Path::extension`
/// gives it: what follows the last `.` of that component, unless the only
/// `.` opens it.
pub open spec fn path_extension(p: Seq<u8>) -> Option<Seq<u8>> {
    let n = last_index(p, 47, p.len() as int) + 1;
    let d = last_index(p, 46, p.len() as int);
    if d > n {
        Some(p.subrange(d + 1, p.len() as int))
    } else {
        None
    }
}

/// The content type that a file path's extension gives.
pub open spec fn path_content_type(p: Seq<u8>) -> Seq<char> {
    match path_extension(p) {
        Some(e) => mime_of(e),
        None => Seq::empty(),
    }
}

fn path_mime(p: &[u8]) -> (r: &'static str)
    ensures
        r@ == path_content_type(p@),
{
    assert(p@.len() == p.len());
    let n: usize = match rfind_byte(p, 47) {
        Some(i) => i + 1,
        None => 0,
    };
    match rfind_byte(p, 46) {
        Some(d) => {
            if d > n {
                let mut e: Vec<u8> = Vec::new();
                append_range(&mut e, p, d + 1, p.len());
                extension_to_content_type(e.as_slice())
            } else {
                assert(path_extension(p@) is None);
                proof {
                    assert(path_content_type(p@) =~= ""@) by {
                        reveal_strlit("");
                    }
                }
                ""
            }
        },
        None => {
            proof {
                reveal_strlit("");
            }
            ""
        },
    }
}

/// Sets `Content-length` to a number.
fn set_length(h: &mut HeaderMap, n: u64)
    ensures
        final(h)@ == inserted(old(h)@, "Content-length"@, dec_value_text(n as nat)),
{
    let v = dec_string(n);
    proof {
        lemma_decode_utf8_of(v@, dec_str(n as nat));
    }
    h.insert(String::from_str("Content-length"), v);
}

/// Whether a method name is `HEAD`.
pub fn method_is_head(m: &str) -> (r: bool)
    ensures
        r == is_head(m@),
{
    let k: [u8; 4] = [72, 69, 65, 68];
    assert(k@ =~= seq![72u8, 69, 65, 68]);
    bytes_equal(str_bytes(m), k.as_slice())
}

/// Chainable settings of a response. After a failed `write_file` it is
/// marked failed, and the settings it offers do nothing.
pub struct ResponseConfig<'b> {
    pub res: &'b mut Response,
    pub has_failure: bool,
}

impl<'b> ResponseConfig<'b> {
    /// Turns chunked transfer on: `Transfer-Encoding: chunked`, and no
    /// `Content-length`. Nothing changes for `HEAD`.
    pub fn chunked(&mut self) -> (r: &mut Self)
        ensures
            r.has_failure == old(self).has_failure,
            old(self).has_failure || is_head(old(self).res.method@) ==> *r.res == *old(self).res,
            !old(self).has_failure && !is_head(old(self).res.method@) ==> {
                &&& r.res.chunked.enable
                &&& r.res.chunked.chunk_size == old(self).res.chunked.chunk_size
                &&& r.res.header_pair@ == removed(
                    inserted(old(self).res.header_pair@, "Transfer-Encoding"@, "chunked"@),
                    "Content-length"@,
                )
                &&& r.res.http_state == old(self).res.http_state
                &&& r.res.body == old(self).res.body
                &&& r.res.range == old(self).res.range
                &&& r.res.version == old(self).res.version
                &&& r.res.method == old(self).res.method
                &&& r.res.request_header == old(self).res.request_header
            },
            *final(self) == *final(r),
    {
        if self.has_failure {
            return self;
        }
        if method_is_head(self.res.method.as_str()) {
            return self;
        }
        self.res.header_pair.insert(String::from_str("Transfer-Encoding"), String::from_str("chunked"));
        self.res.header_pair.remove("Content-length");
        self.res.chunked.enable = true;
        self
    }

    /// Sets the status code.
    pub fn status(&mut self, code: u16) -> (r: &mut Self)
        ensures
            r.has_failure == old(self).has_failure,
            old(self).has_failure ==> *r.res == *old(self).res,
            !old(self).has_failure ==> {
                &&& r.res.http_state == code
                &&& r.res.header_pair == old(self).res.header_pair
                &&& r.res.body == old(self).res.body
                &&& same_frame(r.res, old(self).res)
            },
            *final(self) == *final(r),
    {
        if !self.has_failure {
            self.res.http_state = code;
        }
        self
    }

    /// Offers a file body for download under `name`: adds
    /// `Content-Disposition: attachment; filename="name"`, unless the body is
    /// not a file or a disposition is set already.
    pub fn specify_file_name(&mut self, name: &str) -> (r: &mut Self)
        ensures
            r.has_failure == old(self).has_failure,
            r.res.body == old(self).res.body,
            r.res.http_state == old(self).res.http_state,
            same_frame(r.res, old(self).res),
            (!old(self).has_failure && old(self).res.body is File && name_index(
                old(self).res.header_pair@,
                "Content-Disposition"@,
            ) < 0) ==> r.res.header_pair@ == inserted(
                old(self).res.header_pair@,
                "Content-Disposition"@,
                "attachment; filename=\""@ + name@ + "\""@,
            ),
            !(!old(self).has_failure && old(self).res.body is File && name_index(
                old(self).res.header_pair@,
                "Content-Disposition"@,
            ) < 0) ==> r.res.header_pair == old(self).res.header_pair,
            *final(self) == *final(r),
    {
        if self.has_failure {
            return self;
        }
        let is_file = match &self.res.body {
            BodyType::File(_, _) => true,
            _ => false,
        };
        if is_file && !self.res.header_pair.contains("Content-Disposition") {
            let mut v = String::from_str("attachment; filename=\"");
            v.append(name);
            v.append("\"");
            self.res.header_pair.insert(String::from_str("Content-Disposition"), v);
        }
        self
    }

    /// Serves a byte range where the request asks for one. For `HEAD` it
    /// announces `Accept-Ranges: bytes` and the full length, with status 200.
    pub fn enable_range(&mut self) -> (r: &mut Self)
        ensures
            r.has_failure == old(self).has_failure,
            old(self).has_failure ==> *r.res == *old(self).res,
            !old(self).has_failure && !is_head(old(self).res.method@) ==> {
                &&& r.res.range == match lookup(
                    old(self).res.request_header@,
                    "Range"@,
                ) {
                    Some(v) => range_spec(utf8_of(v)),
                    None => ResponseRangeMeta::Whole,
                }
                &&& r.res.header_pair == old(self).res.header_pair
                &&& r.res.http_state == old(self).res.http_state
                &&& r.res.body == old(self).res.body
            },
            !old(self).has_failure && is_head(old(self).res.method@) ==> {
                let h = inserted(old(self).res.header_pair@, "Accept-Ranges"@, "bytes"@);
                &&& r.res.range == old(self).res.range
                &&& r.res.body == old(self).res.body
                &&& old(self).res.body is Empty ==> r.res.header_pair@ == h
                    && r.res.http_state == old(self).res.http_state
                &&& !(old(self).res.body is Empty) ==> r.res.header_pair@ == inserted(
                    h,
                    "Content-length"@,
                    dec_value_text(body_size(old(self).res.body)),
                ) && r.res.http_state == 200
            },
            *final(self) == *final(r),
    {
        if self.has_failure {
            return self;
        }
        if method_is_head(self.res.method.as_str()) {
            self.res.header_pair.insert(String::from_str("Accept-Ranges"), String::from_str("bytes"));
            let n: Option<u64> = match &self.res.body {
                BodyType::Memory(b) => Some(b.len() as u64),
                BodyType::File(_, n) => Some(*n),
                BodyType::Empty => None,
            };
            match n {
                Some(n) => {
                    set_length(&mut self.res.header_pair, n);
                    self.res.http_state = 200;
                },
                None => {},
            }
        } else {
            match self.res.request_header.get("Range") {
                Some(v) => {
                    self.res.range = parse_range_content(v);
                },
                None => {
                    self.res.range = ResponseRangeMeta::Whole;
                },
            }
        }
        self
    }
}

impl Response {
    /// A response to a request with this version, method and headers: status
    /// 200, no headers, no body.
    pub fn new(version: String, method: String, chunk_size: u32, request_header: HeaderMap) -> (r:
        Self)
        ensures
            r.version == version,
            r.method == method,
            r.http_state == 200,
            r.header_pair@.len() == 0,
            distinct_names(r.header_pair@),
            r.body is Empty,
            !r.chunked.enable,
            r.chunked.chunk_size == chunk_size as usize,
            r.range is Whole,
            r.request_header == request_header,
    {
        Response {
            header_pair: HeaderMap::new(),
            version,
            method,
            http_state: 200,
            body: BodyType::Empty,
            chunked: ResponseChunkMeta::new(chunk_size),
            range: ResponseRangeMeta::Whole,
            request_header,
        }
    }

    /// The value of a header of the request answered.
    pub fn get_request_header_value(&self, k: &str) -> (r: Option<&str>)
        ensures
            match r {
                Some(v) => lookup(self.request_header@, k@) == Some(v@),
                None => lookup(self.request_header@, k@) is None,
            },
    {
        self.request_header.get(k)
    }

    /// Removes every header named `key`, in any case.
    pub fn remove_header(&mut self, key: String)
        ensures
            final(self).header_pair@ == removed(old(self).header_pair@, key@),
            name_index(final(self).header_pair@, key@) == -1,
            final(self).http_state == old(self).http_state,
            final(self).body == old(self).body,
            same_frame(final(self), old(self)),
    {
        self.header_pair.remove(key.as_str());
    }

    /// Sets a header; one of the same name, in any case, is replaced.
    pub fn add_header(&mut self, key: String, value: String)
        ensures
            final(self).header_pair@ == inserted(old(self).header_pair@, key@, value@),
            distinct_names(final(self).header_pair@),
            forall|i: int|
                0 <= i < final(self).header_pair@.len() && same_name(
                    #[trigger] final(self).header_pair@[i].0,
                    key@,
                ) ==> final(self).header_pair@[i] == (key@, value@),
            final(self).http_state == old(self).http_state,
            final(self).body == old(self).body,
            same_frame(final(self), old(self)),
    {
        self.header_pair.insert(key, value);
    }

    /// Whether a header named `s`, in any case, is set.
    pub fn header_exist(&self, s: &str) -> (r: bool)
        ensures
            r == (name_index(self.header_pair@, s@) >= 0),
    {
        self.header_pair.contains(s)
    }

    /// A body of text.
    pub fn write_string(&mut self, v: &str) -> (r: ResponseConfig<'_>)
        ensures
            *final(self) == *final(r.res),
            !r.has_failure,
            r.res.body == BodyType::Memory(r.res.body->Memory_0),
            r.res.body->Memory_0@ == utf8_of(v@),
            r.res.header_pair@ == inserted(
                old(self).header_pair@,
                "Content-length"@,
                dec_value_text(utf8_of(v@).len()),
            ),
            r.res.http_state == old(self).http_state,
            same_frame(r.res, old(self)),
    {
        let b = str_bytes(v);
        let mut data: Vec<u8> = Vec::new();
        append_range(&mut data, b, 0, b.len());
        assert(b@.subrange(0, b@.len() as int) =~= b@);
        self.write_binary(data)
    }

    /// A body of bytes.
    pub fn write_binary(&mut self, v: Vec<u8>) -> (r: ResponseConfig<'_>)
        ensures
            *final(self) == *final(r.res),
            !r.has_failure,
            r.res.body == BodyType::Memory(v),
            r.res.header_pair@ == inserted(
                old(self).header_pair@,
                "Content-length"@,
                dec_value_text(v@.len()),
            ),
            r.res.http_state == old(self).http_state,
            same_frame(r.res, old(self)),
    {
        set_length(&mut self.header_pair, v.len() as u64);
        self.body = BodyType::Memory(v);
        ResponseConfig { res: self, has_failure: false }
    }

    /// A status with no body: `Content-length: 0`.
    pub fn write_state(&mut self, code: u16)
        ensures
            final(self).http_state == code,
            final(self).body is Empty,
            final(self).header_pair@ == inserted(
                old(self).header_pair@,
                "Content-length"@,
                dec_value_text(0),
            ),
            same_frame(final(self), old(self)),
    {
        self.http_state = code;
        set_length(&mut self.header_pair, 0);
        self.body = BodyType::Empty;
    }

    /// A file body. `file_len` is the file's length, or `None` where it could
    /// not be opened: then the response becomes a 404 with a short message,
    /// and the settings chained after it do nothing. Where the path's
    /// extension has a known content type and none is set, it is set.
    pub fn write_file(&mut self, path: String, file_len: Option<u64>) -> (r: ResponseConfig<'_>)
        ensures
            *final(self) == *final(r.res),
            same_frame(r.res, old(self)),
            file_len is None ==> {
                &&& r.has_failure
                &&& r.res.http_state == 404
                &&& r.res.body matches BodyType::Memory(m) && m@ == utf8_of(
                    path@ + " file not found"@,
                )
                &&& r.res.header_pair@ == inserted(
                    old(self).header_pair@,
                    "Content-length"@,
                    dec_value_text(utf8_of(path@ + " file not found"@).len()),
                )
            },
            file_len matches Some(n) ==> {
                let h = inserted(old(self).header_pair@, "Content-length"@, dec_value_text(n as nat));
                let t = path_content_type(utf8_of(path@));
                &&& !r.has_failure
                &&& r.res.http_state == old(self).http_state
                &&& r.res.body == BodyType::File(path, n)
                &&& (t.len() > 0 && name_index(h, "Content-Type"@) < 0) ==> r.res.header_pair@
                    == inserted(h, "Content-Type"@, t)
                &&& !(t.len() > 0 && name_index(h, "Content-Type"@) < 0) ==> r.res.header_pair@
                    == h
            },
    {
        match file_len {
            None => {
                let mut msg = String::from_str(path.as_str());
                msg.append(" file not found");
                let b = string_bytes(&msg);
                let mut data: Vec<u8> = Vec::new();
                append_range(&mut data, b, 0, b.len());
                assert(b@.subrange(0, b@.len() as int) =~= b@);
                set_length(&mut self.header_pair, data.len() as u64);
                self.body = BodyType::Memory(data);
                self.http_state = 404;
                ResponseConfig { res: self, has_failure: true }
            },
            Some(n) => {
                set_length(&mut self.header_pair, n);
                let t = path_mime(string_bytes(&path));
                if !t.is_empty() && !self.header_pair.contains("Content-Type") {
                    self.header_pair.insert(String::from_str("Content-Type"), String::from_str(t));
                }
                self.body = BodyType::File(path, n);
                ResponseConfig { res: self, has_failure: false }
            },
        }
    }
}

/// The header lines of a list of fields: `NAME: VALUE` and a line break each.
pub open spec fn fields_text(h: Seq<(Seq<char>, Seq<char>)>) -> Seq<u8>
    decreases h.len(),
{
    if h.len() == 0 {
        Seq::empty()
    } else {
        fields_text(h.drop_last()) + utf8_of(h.last().0) + seq![58u8, 32] + utf8_of(h.last().1)
            + seq![13u8, 10]
    }
}

/// The head of a response on the wire: status line, header lines, blank line.
pub open spec fn head_text(version: Seq<char>, code: u16, h: Seq<(Seq<char>, Seq<char>)>) -> Seq<
    u8,
> {
    utf8_of(version) + seq![32u8] + utf8_of(status_text(code)) + fields_text(h) + seq![13u8, 10]
}

/// The window of the body that is sent: its start and length.
pub open spec fn window_of(r: Option<(u64, u64)>) -> Option<(int, int)> {
    match r {
        Some(w) => Some((w.0 as int, w.1 as int)),
        None => None,
    }
}

/// Where two responses differ only in the range they answer.
pub open spec fn ranged(
    old_res: &Response,
    new_res: &Response,
    r: Option<(u64, u64)>,
) -> bool {
    let size = body_size(old_res.body);
    match old_res.range {
        ResponseRangeMeta::Whole => window_of(r) == Some((0int, size as int)) && new_res.header_pair
            == old_res.header_pair && new_res.http_state == old_res.http_state && new_res.body
            == old_res.body,
        ResponseRangeMeta::Range(s, e) => match window_spec(s, e, size as u64) {
            Some(None) => window_of(r) == Some((0int, size as int)) && new_res.header_pair
                == old_res.header_pair && new_res.http_state == old_res.http_state
                && new_res.body == old_res.body,
            None => r is None && new_res.http_state == 416 && new_res.body is Empty
                && new_res.header_pair@ == inserted(
                old_res.header_pair@,
                "Content-length"@,
                dec_value_text(0),
            ),
            Some(Some(w)) => {
                let len = w.1 - w.0 + 1;
                let h = removed(
                    inserted(
                        old_res.header_pair@,
                        "Content-Range"@,
                        decode_utf8(content_range_text(w.0 as nat, w.1 as nat, size)),
                    ),
                    "Content-length"@,
                );
                &&& window_of(r) == Some((w.0, len))
                &&& new_res.http_state == 206
                &&& new_res.body == old_res.body
                &&& old_res.chunked.enable ==> new_res.header_pair@ == h
                &&& !old_res.chunked.enable ==> new_res.header_pair@ == inserted(
                    h,
                    "Content-length"@,
                    dec_value_text(len as nat),
                )
            },
        },
    }
}

/// The headers of a response once a missing body is given its zero length.
pub open spec fn base_headers(res: &Response) -> Seq<(Seq<char>, Seq<char>)> {
    if res.body is Empty && !res.chunked.enable {
        inserted(res.header_pair@, "Content-length"@, dec_value_text(0))
    } else {
        res.header_pair@
    }
}

/// The response sends its whole body: it asks for no range, or for `-`.
pub open spec fn whole_window(res: &Response) -> bool {
    match res.range {
        ResponseRangeMeta::Whole => true,
        ResponseRangeMeta::Range(s, e) => window_spec(s, e, body_size(res.body) as u64) == Some(
            None::<(int, int)>,
        ),
    }
}

/// What goes on the wire for a response: its head, and whether and which
/// window of its body follows.
pub struct WritePlan {
    pub head: Vec<u8>,
    pub start: u64,
    pub len: u64,
    pub send_body: bool,
}

impl Response {
    /// The status line and header lines of the response.
    pub fn header_to_string(&self) -> (r: Vec<u8>)
        requires
            is_known_status(self.http_state),
        ensures
            r@ == head_text(self.version@, self.http_state, self.header_pair@),
    {
        let mut buffs: Vec<u8> = Vec::new();
        let v = string_bytes(&self.version);
        append_range(&mut buffs, v, 0, v.len());
        buffs.push(32);
        let st = str_bytes(get_httpstatus_from_code(self.http_state));
        append_range(&mut buffs, st, 0, st.len());
        assert(v@.subrange(0, v@.len() as int) =~= v@);
        assert(st@.subrange(0, st@.len() as int) =~= st@);
        let ghost pre = buffs@;
        let mut i: usize = 0;
        assert(self.header_pair@.subrange(0, 0) =~= Seq::<(Seq<char>, Seq<char>)>::empty());
        assert(fields_text(self.header_pair@.subrange(0, 0)) =~= Seq::<u8>::empty());
        assert(pre + fields_text(self.header_pair@.subrange(0, 0)) =~= pre);
        while i < self.header_pair.len()
            invariant
                0 <= i <= self.header_pair@.len(),
                buffs@ == pre + fields_text(self.header_pair@.subrange(0, i as int)),
            decreases self.header_pair@.len() - i,
        {
            let (k, val) = self.header_pair.entry(i);
            let kb = str_bytes(k);
            let vb = str_bytes(val);
            append_range(&mut buffs, kb, 0, kb.len());
            buffs.push(58);
            buffs.push(32);
            append_range(&mut buffs, vb, 0, vb.len());
            buffs.push(13);
            buffs.push(10);
            proof {
                let h = self.header_pair@.subrange(0, i + 1);
                assert(h.drop_last() =~= self.header_pair@.subrange(0, i as int));
                assert(kb@.subrange(0, kb@.len() as int) =~= kb@);
                assert(vb@.subrange(0, vb@.len() as int) =~= vb@);
                assert(buffs@ =~= pre + fields_text(h));
            }
            i = i + 1;
        }
        buffs.push(13);
        buffs.push(10);
        assert(self.header_pair@.subrange(0, i as int) =~= self.header_pair@);
        assert(buffs@ =~= head_text(self.version@, self.http_state, self.header_pair@));
        buffs
    }

    /// The size of the body.
    pub fn take_body_size(&self) -> (r: u64)
        ensures
            r as nat == body_size(self.body),
    {
        match &self.body {
            BodyType::Memory(b) => b.len() as u64,
            BodyType::File(_, n) => *n,
            BodyType::Empty => 0,
        }
    }

    /// Applies the range asked for to the body: the whole body; a window,
    /// with status 206, `Content-Range` and, unless chunked, the window's
    /// length; or, where the window cannot be served, status 416 and no body.
    pub fn take_body_buff(&mut self) -> (r: Option<(u64, u64)>)
        ensures
            ranged(old(self), final(self), r),
            same_frame(final(self), old(self)),
    {
        let size = self.take_body_size();
        let (s, e) = match &self.range {
            ResponseRangeMeta::Whole => return Some((0, size)),
            ResponseRangeMeta::Range(s, e) => (*s, *e),
        };
        match resolve_range(s, e, size) {
            RangeWindow::Whole => Some((0, size)),
            RangeWindow::Unsatisfiable => {
                self.write_state(416);
                None
            },
            RangeWindow::Window(a, b) => {
                let v = content_range(a, b, size);
                proof {
                    encode_utf8_decode_utf8(v@);
                }
                self.header_pair.insert(String::from_str("Content-Range"), v);
                self.header_pair.remove("Content-length");
                let len = b - a + 1;
                if !self.chunked.enable {
                    set_length(&mut self.header_pair, len);
                }
                self.http_state = 206;
                Some((a, len))
            },
        }
    }

    /// Readies the response for the wire. A response without a body that
    /// sets no length gets `Content-length: 0`; a range is applied; a chunked
    /// response that sends a body carries `Transfer-Encoding: chunked` and no
    /// `Content-length`; the answer to `HEAD` sends no body.
    pub fn prepare_write(&mut self) -> (r: WritePlan)
        requires
            is_known_status(old(self).http_state),
        ensures
            r.head@ == head_text(final(self).version@, final(self).http_state, final(self).header_pair@),
            same_frame(final(self), old(self)),
            is_head(old(self).method@) ==> !r.send_body,
            r.send_body ==> r.start as int + r.len as int <= body_size(final(self).body),
            final(self).chunked.enable && r.send_body ==> lookup(
                final(self).header_pair@,
                "Transfer-Encoding"@,
            ) == Some("chunked"@) && name_index(final(self).header_pair@, "Content-length"@) == -1,
            old(self).body is Empty && !old(self).chunked.enable ==> lookup(
                final(self).header_pair@,
                "Content-length"@,
            ) == Some(dec_value_text(0)) && (r.send_body ==> r.len == 0),
            is_head(old(self).method@) && old(self).chunked.enable ==> exists|w: Option<(u64, u64)>|
                ranged(old(self), final(self), w),
            is_head(old(self).method@) && !old(self).chunked.enable ==> {
                &&& final(self).header_pair@ == base_headers(old(self))
                &&& final(self).http_state == old(self).http_state
                &&& final(self).body == old(self).body
            },
            !is_head(old(self).method@) && whole_window(old(self)) ==> {
                &&& r.send_body
                &&& r.start == 0
                &&& r.len == body_size(final(self).body)
                &&& final(self).http_state == old(self).http_state
                &&& final(self).body == old(self).body
                &&& final(self).header_pair@ == if old(self).chunked.enable {
                    inserted(
                        removed(base_headers(old(self)), "Content-length"@),
                        "Transfer-Encoding"@,
                        "chunked"@,
                    )
                } else {
                    base_headers(old(self))
                }
            },
            !is_head(old(self).method@) ==> match old(self).range {
                ResponseRangeMeta::Range(s, e) => match window_spec(
                    s,
                    e,
                    body_size(old(self).body) as u64,
                ) {
                    None => final(self).http_state == 416 && final(self).body is Empty
                        && !r.send_body && lookup(final(self).header_pair@, "Content-length"@)
                        == Some(dec_value_text(0)),
                    Some(Some(w)) => {
                        let h = removed(
                            inserted(
                                old(self).header_pair@,
                                "Content-Range"@,
                                decode_utf8(
                                    content_range_text(
                                        w.0 as nat,
                                        w.1 as nat,
                                        body_size(old(self).body),
                                    ),
                                ),
                            ),
                            "Content-length"@,
                        );
                        &&& final(self).http_state == 206
                        &&& r.send_body
                        &&& r.start == w.0
                        &&& r.len == w.1 - w.0 + 1
                        &&& final(self).body == old(self).body
                        &&& final(self).header_pair@ == if old(self).chunked.enable {
                            inserted(
                                removed(h, "Content-length"@),
                                "Transfer-Encoding"@,
                                "chunked"@,
                            )
                        } else {
                            inserted(h, "Content-length"@, dec_value_text((w.1 - w.0 + 1) as nat))
                        }
                    },
                    Some(None) => true,
                },
                ResponseRangeMeta::Whole => true,
            },
    {
        let head_only = method_is_head(self.method.as_str());
        let empty = match &self.body {
            BodyType::Empty => true,
            _ => false,
        };
        if empty && !self.chunked.enable {
            set_length(&mut self.header_pair, 0);
            proof {
                lemma_lookup_inserted(old(self).header_pair@, "Content-length"@, dec_value_text(0));
            }
        }
        let ghost mid = self.header_pair@;
        let window = if head_only && !self.chunked.enable {
            None
        } else {
            self.take_body_buff()
        };
        proof {
            if window is None && !head_only {
                lemma_lookup_inserted(mid, "Content-length"@, dec_value_text(0));
            }
        }
        let send_body = window.is_some() && !head_only;
        if self.chunked.enable && send_body {
            self.header_pair.remove("Content-length");
            let ghost cleared = self.header_pair@;
            self.header_pair.insert(
                String::from_str("Transfer-Encoding"),
                String::from_str("chunked"),
            );
            proof {
                reveal_strlit("Transfer-Encoding");
                reveal_strlit("Content-length");
                lemma_names_differ("Transfer-Encoding"@, "Content-length"@);
                lemma_inserted_keeps_absent(
                    cleared,
                    "Transfer-Encoding"@,
                    "chunked"@,
                    "Content-length"@,
                );
                lemma_lookup_inserted(cleared, "Transfer-Encoding"@, "chunked"@);
            }
        }
        let head = self.header_to_string();
        let (start, len) = match window {
            Some(w) => w,
            None => (0, 0),
        };
        WritePlan { head, start, len, send_body }
    }
}

/// One chunk: its size in hexadecimal, a line break, the bytes, a line break.
pub open spec fn chunk_text(d: Seq<u8>) -> Seq<u8> {
    hex_str(d.len()) + seq![13u8, 10] + d + seq![13u8, 10]
}

/// The last chunk: `0\r\n\r\n`.
pub open spec fn last_chunk_text() -> Seq<u8> {
    seq![48u8, 13, 10, 13, 10]
}

/// A body in chunked framing: chunks of `size` bytes, the last one shorter,
/// then the last chunk.
pub open spec fn chunked_text(d: Seq<u8>, size: nat) -> Seq<u8>
    decreases d.len(),
{
    if d.len() == 0 || size == 0 {
        last_chunk_text()
    } else if d.len() <= size {
        chunk_text(d) + last_chunk_text()
    } else {
        chunk_text(d.subrange(0, size as int)) + chunked_text(d.subrange(size as int, d.len() as int), size)
    }
}

/// Frames one chunk.
pub fn chunk_frame(d: &[u8]) -> (r: Vec<u8>)
    ensures
        r@ == chunk_text(d@),
{
    let mut out: Vec<u8> = Vec::new();
    push_hex(&mut out, d.len());
    out.push(13);
    out.push(10);
    append_range(&mut out, d, 0, d.len());
    out.push(13);
    out.push(10);
    assert(d@.subrange(0, d@.len() as int) =~= d@);
    assert(out@ =~= chunk_text(d@));
    out
}

/// The last chunk.
pub fn last_chunk() -> (r: Vec<u8>)
    ensures
        r@ == last_chunk_text(),
{
    let r: Vec<u8> = vec![48, 13, 10, 13, 10];
    assert(r@ =~= last_chunk_text());
    r
}

/// A whole body in chunked framing.
pub fn encode_chunked(d: &[u8], size: usize) -> (r: Vec<u8>)
    requires
        size > 0,
    ensures
        r@ == chunked_text(d@, size as nat),
{
    let mut out: Vec<u8> = Vec::new();
    let mut start: usize = 0;
    assert(d@.subrange(0, d@.len() as int) =~= d@);
    assert(out@ + chunked_text(d@, size as nat) =~= chunked_text(d@, size as nat));
    while start < d.len() && d.len() - start > size
        invariant
            size > 0,
            start <= d@.len(),
            out@ + chunked_text(d@.subrange(start as int, d@.len() as int), size as nat)
                == chunked_text(d@, size as nat),
        decreases d@.len() - start,
    {
        let piece = crate::bytes::copy_range(d, start, start + size);
        let f = chunk_frame(piece.as_slice());
        let ghost rest = d@.subrange(start as int, d@.len() as int);
        proof {
            assert(rest.subrange(0, size as int) =~= piece@);
            assert(rest.subrange(size as int, rest.len() as int) =~= d@.subrange(
                start + size,
                d@.len() as int,
            ));
        }
        append_range(&mut out, f.as_slice(), 0, f.len());
        assert(f@.subrange(0, f@.len() as int) =~= f@);
        start = start + size;
    }
    let rest = crate::bytes::copy_range(d, start, d.len());
    if rest.len() > 0 {
        let f = chunk_frame(rest.as_slice());
        append_range(&mut out, f.as_slice(), 0, f.len());
        assert(f@.subrange(0, f@.len() as int) =~= f@);
    }
    let l = last_chunk();
    append_range(&mut out, l.as_slice(), 0, l.len());
    assert(l@.subrange(0, l@.len() as int) =~= l@);
    assert(out@ =~= chunked_text(d@, size as nat));
    out
}

/// The bytes of a body window on the wire: in chunked framing where chunked
/// transfer is on, as they are otherwise.
pub open spec fn framed(d: Seq<u8>, chunked: bool, size: nat) -> Seq<u8> {
    if chunked {
        chunked_text(d, size)
    } else {
        d
    }
}

/// Frames a body window.
pub fn frame_body(d: &[u8], chunked: bool, size: usize) -> (r: Vec<u8>)
    requires
        size > 0,
    ensures
        r@ == framed(d@, chunked, size as nat),
{
    if chunked {
        encode_chunked(d, size)
    } else {
        let mut out: Vec<u8> = Vec::new();
        append_range(&mut out, d, 0, d.len());
        assert(d@.subrange(0, d@.len() as int) =~= d@);
        out
    }
}

/// What follows the head of a response whose body is in memory or missing:
/// nothing where no body is sent, else the window of the body, framed.
pub open spec fn memory_body_text(res: &Response, plan: &WritePlan) -> Seq<u8> {
    if !plan.send_body {
        Seq::empty()
    } else {
        let w = match res.body {
            BodyType::Memory(v) => v@.subrange(plan.start as int, plan.start + plan.len),
            _ => Seq::empty(),
        };
        framed(w, res.chunked.enable, res.chunked.chunk_size as nat)
    }
}

impl Response {
    /// The bytes that follow the head, where the body is not a file to be
    /// read by the caller.
    pub fn body_bytes(&self, plan: &WritePlan) -> (r: Option<Vec<u8>>)
        requires
            self.chunked.chunk_size > 0,
            plan.send_body ==> plan.start as int + plan.len as int <= body_size(self.body),
        ensures
            self.body is File && plan.send_body ==> r is None,
            !(self.body is File && plan.send_body) ==> (r matches Some(b) && b@ == memory_body_text(
                self,
                plan,
            )),
    {
        if !plan.send_body {
            return Some(Vec::new());
        }
        match &self.body {
            BodyType::File(_, _) => None,
            BodyType::Memory(v) => {
                let mut w: Vec<u8> = Vec::new();
                assert(v@.len() == v.len());
                assert(plan.start + plan.len <= v.len());
                let a = plan.start as usize;
                let e = a + plan.len as usize;
                append_range(&mut w, v.as_slice(), a, e);
                Some(frame_body(w.as_slice(), self.chunked.enable, self.chunked.chunk_size))
            },
            BodyType::Empty => {
                let w: Vec<u8> = Vec::new();
                assert(w@ =~= Seq::<u8>::empty());
                Some(frame_body(w.as_slice(), self.chunked.enable, self.chunked.chunk_size))
            },
        }
    }
}

} // verus!
