//! The head of a request: read until the blank line that ends it, then split
//! into the request line and the header fields.
use vstd::prelude::*;
use vstd::utf8::{decode_utf8, valid_utf8};
use crate::bytes::{
    append_range, copy_range, find_from, find_spec, matches_at, trim_bounds, trim_spec,
};
use crate::headers::{distinct_names, inserted, HeaderMap};
use crate::multipart::crlf2;
use crate::text::{lemma_decode_utf8_of, lemma_valid_piece, string_of_range, utf8_of, utf8_string};

verus! {

/// What the bytes read so far make of a head.
pub enum HeadRead {
    /// The head is complete: its bytes, and what followed the blank line.
    Complete(Vec<u8>, Vec<u8>),
    /// No blank line yet; read more.
    NeedMore,
    /// The head is longer than the size limit.
    TooLarge,
    /// The head is not UTF-8.
    NotText,
}

/// What a head buffer amounts to, in mathematical terms.
pub enum HeadState {
    Complete(Seq<u8>, Seq<u8>),
    NeedMore,
    TooLarge,
    NotText,
}

/// Collects the bytes of a request head.
pub struct HeadReader {
    pub buf: Vec<u8>,
    pub max_header_size: usize,
}

/// What a head buffer amounts to: the head ends at the first blank line,
/// which must start within `max` bytes, and must be UTF-8; without a blank
/// line, more than `max` bytes are too many.
pub open spec fn head_read_spec(buf: Seq<u8>, max: usize) -> HeadState {
    match find_spec(buf, crlf2(), 0) {
        Some(p) => if p > max {
            HeadState::TooLarge
        } else if !valid_utf8(buf.subrange(0, p)) {
            HeadState::NotText
        } else {
            HeadState::Complete(buf.subrange(0, p), buf.subrange(p + 4, buf.len() as int))
        },
        None => if buf.len() > max {
            HeadState::TooLarge
        } else {
            HeadState::NeedMore
        },
    }
}

/// The view of a head reader's answer.
pub open spec fn head_read_view(r: HeadRead) -> HeadState {
    match r {
        HeadRead::Complete(h, rest) => HeadState::Complete(h@, rest@),
        HeadRead::NeedMore => HeadState::NeedMore,
        HeadRead::TooLarge => HeadState::TooLarge,
        HeadRead::NotText => HeadState::NotText,
    }
}

impl HeadReader {
    pub fn new(max_header_size: usize) -> (r: Self)
        ensures
            r.buf@.len() == 0,
            r.max_header_size == max_header_size,
    {
        HeadReader { buf: Vec::new(), max_header_size }
    }

    /// Takes the bytes of one read and says whether the head is complete:
    /// complete at the first blank line if it starts within
    /// `max_header_size` bytes and the head is UTF-8; too large where the
    /// blank line starts later, or is missing after more than
    /// `max_header_size` bytes.
    pub fn read_http_head(&mut self, data: &[u8]) -> (r: HeadRead)
        ensures
            final(self).buf@ == old(self).buf@ + data@,
            final(self).max_header_size == old(self).max_header_size,
            head_read_view(r) == head_read_spec(final(self).buf@, old(self).max_header_size),
    {
        append_range(&mut self.buf, data, 0, data.len());
        assert(data@.subrange(0, data@.len() as int) =~= data@);
        let pat: [u8; 4] = [13, 10, 13, 10];
        assert(pat@ =~= crlf2());
        match find_from(self.buf.as_slice(), pat.as_slice(), 0) {
            Some(p) => {
                assert(matches_at(self.buf@, pat@, p as int));
                assert(self.buf@.len() == self.buf.len());
                if p > self.max_header_size {
                    return HeadRead::TooLarge;
                }
                let head = copy_range(self.buf.as_slice(), 0, p);
                if utf8_string(head.as_slice()).is_none() {
                    return HeadRead::NotText;
                }
                let rest = copy_range(self.buf.as_slice(), p + 4, self.buf.len());
                HeadRead::Complete(head, rest)
            },
            None => {
                if self.buf.len() > self.max_header_size {
                    HeadRead::TooLarge
                } else {
                    HeadRead::NeedMore
                }
            },
        }
    }
}

/// Where the line that starts at `a` ends: at the next `\r\n`, or at the end.
pub open spec fn line_end(s: Seq<u8>, a: int) -> int {
    match find_spec(s, seq![13u8, 10], a) {
        Some(p) => p,
        None => s.len() as int,
    }
}

/// The name and value of the header line `s[a..b]`, split at its first `:`
/// and trimmed; a line without `:`, or whose name or value is not UTF-8, has
/// none.
pub open spec fn field_of(s: Seq<u8>, a: int, b: int) -> Option<(Seq<u8>, Seq<u8>)> {
    let line = s.subrange(a, b);
    match find_spec(line, seq![58u8], 0) {
        None => None,
        Some(c) => {
            let k = trim_spec(line.subrange(0, c));
            let v = trim_spec(line.subrange(c + 1, line.len() as int));
            if valid_utf8(k) && valid_utf8(v) {
                Some((k, v))
            } else {
                None
            }
        },
    }
}

/// The header fields in the lines from `a` to the end of `s`.
pub open spec fn fields_from(s: Seq<u8>, a: int) -> Option<Seq<(Seq<u8>, Seq<u8>)>>
    decreases s.len() - a,
{
    let b = line_end(s, a);
    if a < 0 || a > s.len() || b < a || b > s.len() {
        None
    } else {
        match field_of(s, a, b) {
            None => None,
            Some(f) => if b >= s.len() {
                Some(seq![f])
            } else {
                match fields_from(s, b + 2) {
                    None => None,
                    Some(rest) => Some(seq![f] + rest),
                }
            },
        }
    }
}

/// The header map that setting each field in turn gives.
pub open spec fn fold_fields(f: Seq<(Seq<u8>, Seq<u8>)>) -> Seq<(Seq<char>, Seq<char>)>
    decreases f.len(),
{
    if f.len() == 0 {
        Seq::empty()
    } else {
        inserted(fold_fields(f.drop_last()), decode_utf8(f.last().0), decode_utf8(f.last().1))
    }
}

/// The three words of a request line, split at single spaces and trimmed:
/// what precedes the first space, what lies between the first and the
/// second, and what lies between the second and the third or the end.
pub open spec fn request_line_spec(l: Seq<u8>) -> Option<(Seq<u8>, Seq<u8>, Seq<u8>)> {
    match find_spec(l, seq![32u8], 0) {
        None => None,
        Some(s1) => match find_spec(l, seq![32u8], s1 + 1) {
            None => None,
            Some(s2) => {
                let s3 = match find_spec(l, seq![32u8], s2 + 1) {
                    Some(s3) => s3,
                    None => l.len() as int,
                };
                Some(
                    (
                        trim_spec(l.subrange(0, s1)),
                        trim_spec(l.subrange(s1 + 1, s2)),
                        trim_spec(l.subrange(s2 + 1, s3)),
                    ),
                )
            },
        },
    }
}

/// A parsed head, in bytes: method, url, version and the header fields.
pub open spec fn parse_head_spec(h: Seq<u8>) -> Option<
    (Seq<u8>, Seq<u8>, Seq<u8>, Seq<(Seq<u8>, Seq<u8>)>),
> {
    if !valid_utf8(h) {
        None
    } else {
        let l = line_end(h, 0);
        match request_line_spec(h.subrange(0, l)) {
            None => None,
            Some(w) => if !(valid_utf8(w.0) && valid_utf8(w.1) && valid_utf8(w.2)) {
                None
            } else if l >= h.len() {
                Some((w.0, w.1, w.2, Seq::empty()))
            } else {
                match fields_from(h, l + 2) {
                    None => None,
                    Some(f) => Some((w.0, w.1, w.2, f)),
                }
            },
        }
    }
}

/// The request line and header fields of a request.
pub struct Head {
    pub method: String,
    pub url: String,
    pub version: String,
    pub headers: HeaderMap,
}

/// `s[a..b]` trimmed, as a string, where that is UTF-8.
fn trimmed_string(s: &[u8], a: usize, b: usize) -> (r: Option<String>)
    requires
        a <= b <= s@.len(),
    ensures
        r is Some <==> valid_utf8(trim_spec(s@.subrange(a as int, b as int))),
        r matches Some(x) ==> utf8_of(x@) == trim_spec(s@.subrange(a as int, b as int)),
{
    let piece = copy_range(s, a, b);
    let (x, y) = trim_bounds(piece.as_slice());
    string_of_range(piece.as_slice(), x, y)
}

fn find_space(l: &[u8], from: usize) -> (r: Option<usize>)
    ensures
        match r {
            Some(p) => find_spec(l@, seq![32u8], from as int) == Some(p as int) && from <= p < l@.len()
                && l@[p as int] == 32,
            None => find_spec(l@, seq![32u8], from as int) is None,
        },
{
    let sp: [u8; 1] = [32];
    assert(sp@ =~= seq![32u8]);
    let r = find_from(l, sp.as_slice(), from);
    match r {
        Some(p) => {
            assert(matches_at(l@, sp@, p as int));
            assert(l@.subrange(p as int, p + 1)[0] == 32);
        },
        None => {},
    }
    r
}

fn line_end_from(s: &[u8], a: usize) -> (r: usize)
    ensures
        r as int == line_end(s@, a as int),
        r <= s@.len(),
        r < s@.len() ==> a <= r && r + 2 <= s@.len() && s@[r as int] == 13 && s@[r + 1] == 10,
{
    let pat: [u8; 2] = [13, 10];
    assert(pat@ =~= seq![13u8, 10]);
    match find_from(s, pat.as_slice(), a) {
        Some(p) => {
            assert(matches_at(s@, pat@, p as int));
            assert(s@.subrange(p as int, p + 2)[0] == 13);
            assert(s@.subrange(p as int, p + 2)[1] == 10);
            p
        },
        None => s.len(),
    }
}

/// The name and value of the header line `h[a..b]`, where that line is UTF-8.
fn header_field(h: &[u8], a: usize, b: usize) -> (r: Option<(String, String)>)
    requires
        a <= b <= h@.len(),
        valid_utf8(h@.subrange(a as int, b as int)),
    ensures
        match r {
            Some(x) => field_of(h@, a as int, b as int) == Some((utf8_of(x.0@), utf8_of(x.1@))),
            None => field_of(h@, a as int, b as int) is None,
        },
{
    let piece = copy_range(h, a, b);
    let colon: [u8; 1] = [58];
    assert(colon@ =~= seq![58u8]);
    let c = match find_from(piece.as_slice(), colon.as_slice(), 0) {
        Some(c) => c,
        None => return None,
    };
    assert(matches_at(piece@, colon@, c as int));
    assert(piece@.subrange(c as int, c + 1)[0] == 58);
    let k = match trimmed_string(piece.as_slice(), 0, c) {
        Some(x) => x,
        None => return None,
    };
    let v = match trimmed_string(piece.as_slice(), c + 1, piece.len()) {
        Some(x) => x,
        None => return None,
    };
    Some((k, v))
}

/// Splits a head into its request line and header fields. A later field
/// takes the place of an earlier one of the same name.
pub fn parse_header(h: &[u8]) -> (r: Option<Head>)
    ensures
        match r {
            Some(x) => match parse_head_spec(h@) {
                Some(p) => {
                    &&& utf8_of(x.method@) == p.0
                    &&& utf8_of(x.url@) == p.1
                    &&& utf8_of(x.version@) == p.2
                    &&& x.headers@ == fold_fields(p.3)
                    &&& distinct_names(x.headers@)
                },
                None => false,
            },
            None => parse_head_spec(h@) is None,
        },
{
    if utf8_string(h).is_none() {
        return None;
    }
    let l = line_end_from(h, 0);
    let line = copy_range(h, 0, l);
    proof {
        lemma_valid_piece(h@, 0, l as int);
    }
    let s1 = match find_space(line.as_slice(), 0) {
        Some(p) => p,
        None => return None,
    };
    let s2 = match find_space(line.as_slice(), s1 + 1) {
        Some(p) => p,
        None => return None,
    };
    let s3 = match find_space(line.as_slice(), s2 + 1) {
        Some(p) => p,
        None => line.len(),
    };
    let method = match trimmed_string(line.as_slice(), 0, s1) {
        Some(x) => x,
        None => return None,
    };
    let url = match trimmed_string(line.as_slice(), s1 + 1, s2) {
        Some(x) => x,
        None => return None,
    };
    let version = match trimmed_string(line.as_slice(), s2 + 1, s3) {
        Some(x) => x,
        None => return None,
    };
    let mut headers = HeaderMap::new();
    if l >= h.len() {
        assert(fold_fields(Seq::<(Seq<u8>, Seq<u8>)>::empty()) =~= Seq::<(Seq<char>, Seq<char>)>::empty());
        return Some(Head { method, url, version, headers });
    }
    let mut a: usize = l + 2;
    let ghost words = (utf8_of(method@), utf8_of(url@), utf8_of(version@));
    assert(parse_head_spec(h@) == match fields_from(h@, (l + 2) as int) {
        Some(f) => Some((words.0, words.1, words.2, f)),
        None => None::<(Seq<u8>, Seq<u8>, Seq<u8>, Seq<(Seq<u8>, Seq<u8>)>)>,
    });
    let ghost done: Seq<(Seq<u8>, Seq<u8>)> = Seq::empty();
    assert(done.len() == 0);
    loop
        invariant
            l + 2 <= a <= h@.len(),
            valid_utf8(h@),
            h@[a - 1] == 10,
            words == (utf8_of(method@), utf8_of(url@), utf8_of(version@)),
            parse_head_spec(h@) == match fields_from(h@, (l + 2) as int) {
                Some(f) => Some((words.0, words.1, words.2, f)),
                None => None::<(Seq<u8>, Seq<u8>, Seq<u8>, Seq<(Seq<u8>, Seq<u8>)>)>,
            },
            headers@ == fold_fields(done),
            fields_from(h@, (l + 2) as int) == match fields_from(h@, a as int) {
                Some(rest) => Some(done + rest),
                None => None::<Seq<(Seq<u8>, Seq<u8>)>>,
            },
        decreases h@.len() - a,
    {
        let b = line_end_from(h, a);
        let ghost bb = b as int;
        proof {
            lemma_valid_piece(h@, a as int, bb);
        }
        let (k, v) = match header_field(h, a, b) {
            Some(x) => x,
            None => {
                assert(fields_from(h@, a as int) is None);
                return None;
            },
        };
        let ghost f = (utf8_of(k@), utf8_of(v@));
        proof {
            assert(field_of(h@, a as int, bb) == Some(f));
            lemma_decode_utf8_of(k@, f.0);
            lemma_decode_utf8_of(v@, f.1);
            assert(done.push(f).drop_last() =~= done);
            assert(done.push(f).last() == f);
        }
        headers.insert(k, v);
        proof {
            if b >= h.len() {
                assert(fields_from(h@, a as int) == Some(seq![f]));
                assert(done + seq![f] =~= done.push(f));
            } else {
                match fields_from(h@, b + 2) {
                    Some(rest) => {
                        assert(done + (seq![f] + rest) =~= done.push(f) + rest);
                    },
                    None => {},
                }
            }
            done = done.push(f);
        }
        if b >= h.len() {
            assert(fields_from(h@, (l + 2) as int) == Some(done));
            return Some(Head { method, url, version, headers });
        }
        a = b + 2;
    }
}

} // verus!
