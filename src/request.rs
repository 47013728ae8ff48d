//! Requests as handlers see them: read-only accessors over the head, the
//! query string and the body.
use vstd::prelude::*;
use crate::body::{
    fold_put, map_of_ranges, pairs, pairs_from, ranges_cut, ranges_pairs, BodyContent,
};
use crate::bytes::{bytes_equal, find_from, find_spec, matches_at};
use crate::form::{named_index, put, FieldMap};
use crate::head::Head;
use crate::headers::{distinct_names, lookup, HeaderMap};
use crate::multipart::{MultipleFormData, MultipleFormFile};
use crate::text::{
    cut_ok, lemma_utf8_of_valid, lemma_valid_piece, str_bytes, string_bytes, string_of_range,
    utf8_of,
};

verus! {

/// A request: its head and its body.
pub struct Request {
    pub header_pair: HeaderMap,
    pub url: String,
    pub method: String,
    pub version: String,
    pub body: BodyContent,
}

/// The `key=value` pairs of a URL's query string: what follows its first `?`.
pub open spec fn query_pairs(u: Seq<u8>) -> Seq<(Seq<u8>, Seq<u8>)> {
    match find_spec(u, seq![63u8], 0) {
        Some(q) => pairs_from(u, q + 1, true),
        None => Seq::empty(),
    }
}

/// The value of the first pair keyed `k`.
pub open spec fn first_value(p: Seq<(Seq<u8>, Seq<u8>)>, k: Seq<u8>) -> Option<Seq<u8>>
    decreases p.len(),
{
    if p.len() == 0 {
        None
    } else if p[0].0 == k {
        Some(p[0].1)
    } else {
        first_value(p.drop_first(), k)
    }
}

/// The text fields of a multipart form, set in order.
pub open spec fn fold_texts(s: Seq<(Seq<char>, MultipleFormData)>) -> Seq<(Seq<char>, Seq<char>)>
    decreases s.len(),
{
    if s.len() == 0 {
        Seq::empty()
    } else {
        match s.last().1 {
            MultipleFormData::Text(v) => put(fold_texts(s.drop_last()), s.last().0, v@),
            MultipleFormData::File(_) => fold_texts(s.drop_last()),
        }
    }
}

/// The file fields of a multipart form, in order.
pub open spec fn files_of(s: Seq<(Seq<char>, MultipleFormData)>) -> Seq<MultipleFormFile>
    decreases s.len(),
{
    if s.len() == 0 {
        Seq::empty()
    } else {
        match s.last().1 {
            MultipleFormData::Text(_) => files_of(s.drop_last()),
            MultipleFormData::File(f) => files_of(s.drop_last()).push(f),
        }
    }
}

/// Where the query string of a URL starts, with its pairs as ranges.
fn query_ranges(u: &[u8]) -> (r: Option<(usize, Vec<(usize, usize, usize)>)>)
    ensures
        match r {
            Some(x) => {
                &&& find_spec(u@, seq![63u8], 0) == Some(x.0 - 1)
                &&& 1 <= x.0 <= u@.len()
                &&& u@[x.0 - 1] == 63
                &&& ranges_pairs(u@, x.1@) == query_pairs(u@)
                &&& ranges_cut(u@, x.1@, x.0 as int)
            },
            None => find_spec(u@, seq![63u8], 0) is None,
        },
{
    let qm: [u8; 1] = [63];
    assert(qm@ =~= seq![63u8]);
    match find_from(u, qm.as_slice(), 0) {
        Some(q) => {
            assert(matches_at(u@, qm@, q as int));
            assert(u@.subrange(q as int, q + 1)[0] == 63);
            assert(u@.len() == u.len());
            let r = pairs(u, q + 1, true);
            Some((q + 1, r))
        },
        None => None,
    }
}

impl Request {
    /// A request from its head and body.
    pub fn new(head: Head, body: BodyContent) -> (r: Self)
        ensures
            r.header_pair == head.headers,
            r.url == head.url,
            r.method == head.method,
            r.version == head.version,
            r.body == body,
    {
        Request {
            header_pair: head.headers,
            url: head.url,
            method: head.method,
            version: head.version,
            body,
        }
    }

    /// The value of a header, whatever the case of its name.
    pub fn get_header(&self, key: &str) -> (r: Option<&str>)
        ensures
            match r {
                Some(v) => lookup(self.header_pair@, key@) == Some(v@),
                None => lookup(self.header_pair@, key@) is None,
            },
    {
        self.header_pair.get(key)
    }

    /// All headers.
    pub fn get_headers(&self) -> (r: HeaderMap)
        ensures
            r@ == self.header_pair@,
            distinct_names(r@),
    {
        self.header_pair.clone()
    }

    pub fn get_version(&self) -> (r: &str)
        ensures
            r@ == self.version@,
    {
        self.version.as_str()
    }

    pub fn get_method(&self) -> (r: &str)
        ensures
            r@ == self.method@,
    {
        self.method.as_str()
    }

    /// The URL as sent, query string included.
    pub fn get_url(&self) -> (r: &str)
        ensures
            r@ == self.url@,
    {
        self.url.as_str()
    }

    /// The value of the first query-string pair keyed exactly `k`.
    pub fn get_param(&self, k: &str) -> (r: Option<String>)
        ensures
            match r {
                Some(v) => first_value(query_pairs(utf8_of(self.url@)), utf8_of(k@)) == Some(
                    utf8_of(v@),
                ),
                None => first_value(query_pairs(utf8_of(self.url@)), utf8_of(k@)) is None,
            },
    {
        let u = string_bytes(&self.url);
        let kb = str_bytes(k);
        let (from, r) = match query_ranges(u) {
            Some(x) => x,
            None => return None,
        };
        let ghost p = query_pairs(u@);
        let mut i: usize = 0;
        assert(p.subrange(0, p.len() as int) =~= p);
        while i < r.len()
            invariant
                0 <= i <= r@.len(),
                1 <= from <= u@.len(),
                u@[from - 1] == 63,
                u@ == utf8_of(self.url@),
                kb@ == utf8_of(k@),
                ranges_pairs(u@, r@) == p,
                p == query_pairs(utf8_of(self.url@)),
                ranges_cut(u@, r@, from as int),
                first_value(p, kb@) == first_value(p.subrange(i as int, p.len() as int), kb@),
            decreases r@.len() - i,
        {
            let t = r[i];
            assert(t == r@[i as int]);
            let ghost rest = p.subrange(i as int, p.len() as int);
            assert(rest[0] == p[i as int]);
            assert(rest.drop_first() =~= p.subrange(i + 1, p.len() as int));
            let mut key: Vec<u8> = Vec::new();
            crate::bytes::append_range(&mut key, u, t.0, t.1);
            assert(key@ =~= u@.subrange(t.0 as int, t.1 as int));
            assert(p[i as int] == (
                u@.subrange(t.0 as int, t.1 as int),
                u@.subrange(t.1 + 1, t.2 as int),
            ));
            if bytes_equal(key.as_slice(), kb) {
                proof {
                    lemma_utf8_of_valid(self.url@);
                    assert(cut_ok(u@, t.1 + 1));
                    assert(cut_ok(u@, t.2 as int));
                    lemma_valid_piece(u@, t.1 + 1, t.2 as int);
                    assert(rest.len() > 0);
                    assert(rest[0].0 == kb@);
                    assert(first_value(rest, kb@) == Some(rest[0].1));
                }
                let v = string_of_range(u, t.1 + 1, t.2);
                assert(v is Some);
                return v;
            }
            i = i + 1;
        }
        None
    }

    /// The query-string pairs, a later one taking the value of an earlier
    /// one with the same key; none where there are no pairs.
    pub fn get_params(&self) -> (r: Option<FieldMap<String>>)
        ensures
            query_pairs(utf8_of(self.url@)).len() == 0 ==> r is None,
            query_pairs(utf8_of(self.url@)).len() > 0 ==> (r matches Some(m) && m@ == fold_put(
                query_pairs(utf8_of(self.url@)),
            )),
    {
        let u = string_bytes(&self.url);
        let (from, r) = match query_ranges(u) {
            Some(x) => x,
            None => return None,
        };
        if r.len() == 0 {
            return None;
        }
        proof {
            lemma_utf8_of_valid(self.url@);
        }
        Some(map_of_ranges(u, &r, from))
    }

    /// The value of a form field, from a URL-encoded form or the text fields
    /// of a multipart form, whatever the case of its name.
    pub fn get_query(&self, k: &str) -> (r: Option<&str>)
        ensures
            match self.body {
                BodyContent::UrlForm(m) => {
                    let i = named_index(m@, k@);
                    match r {
                        Some(v) => i >= 0 && v@ == m@[i].1,
                        None => i < 0,
                    }
                },
                BodyContent::Multi(m) => {
                    let i = named_index(m@, k@);
                    match r {
                        Some(v) => i >= 0 && (m@[i].1 matches MultipleFormData::Text(t) && v@ == t@),
                        None => i < 0 || m@[i].1 is File,
                    }
                },
                _ => r is None,
            },
    {
        match &self.body {
            BodyContent::UrlForm(m) => match m.position_named(k) {
                Some(i) => {
                    let (_, v) = m.entry(i);
                    Some(v.as_str())
                },
                None => None,
            },
            BodyContent::Multi(m) => match m.position_named(k) {
                Some(i) => {
                    let (_, v) = m.entry(i);
                    match v {
                        MultipleFormData::Text(t) => Some(t.as_str()),
                        MultipleFormData::File(_) => None,
                    }
                },
                None => None,
            },
            _ => None,
        }
    }

    /// A file field of a multipart form, whatever the case of its name.
    pub fn get_file(&self, k: &str) -> (r: Option<&MultipleFormFile>)
        ensures
            match self.body {
                BodyContent::Multi(m) => {
                    let i = named_index(m@, k@);
                    match r {
                        Some(f) => i >= 0 && m@[i].1 == MultipleFormData::File(*f),
                        None => i < 0 || m@[i].1 is Text,
                    }
                },
                _ => r is None,
            },
    {
        match &self.body {
            BodyContent::Multi(m) => match m.position_named(k) {
                Some(i) => {
                    let (_, v) = m.entry(i);
                    match v {
                        MultipleFormData::File(f) => Some(f),
                        MultipleFormData::Text(_) => None,
                    }
                },
                None => None,
            },
            _ => None,
        }
    }

    /// All form fields: those of a URL-encoded form, or the text fields of a
    /// multipart form; none where there are none.
    pub fn get_queries(&self) -> (r: Option<FieldMap<String>>)
        ensures
            match self.body {
                BodyContent::UrlForm(m) => r matches Some(x) && x@ == m@,
                BodyContent::Multi(m) => if fold_texts(m@).len() == 0 {
                    r is None
                } else {
                    r matches Some(x) && x@ == fold_texts(m@)
                },
                _ => r is None,
            },
    {
        match &self.body {
            BodyContent::UrlForm(m) => Some(m.copy()),
            BodyContent::Multi(m) => {
                let mut out: FieldMap<String> = FieldMap::new();
                let mut i: usize = 0;
                assert(fold_texts(m@.subrange(0, 0)) =~= out@);
                while i < m.len()
                    invariant
                        0 <= i <= m@.len(),
                        out@ == fold_texts(m@.subrange(0, i as int)),
                    decreases m@.len() - i,
                {
                    let (k, v) = m.entry(i);
                    proof {
                        assert(m@.subrange(0, i + 1).drop_last() =~= m@.subrange(0, i as int));
                    }
                    match v {
                        MultipleFormData::Text(t) => {
                            out.put(String::from_str(k), String::from_str(t.as_str()));
                        },
                        MultipleFormData::File(_) => {},
                    }
                    i = i + 1;
                }
                assert(m@.subrange(0, i as int) =~= m@);
                if out.len() == 0 {
                    None
                } else {
                    Some(out)
                }
            },
            _ => None,
        }
    }

    /// The file fields of a multipart form, in order; none where there are none.
    pub fn get_files(&self) -> (r: Option<Vec<&MultipleFormFile>>)
        ensures
            match self.body {
                BodyContent::Multi(m) => if files_of(m@).len() == 0 {
                    r is None
                } else {
                    r matches Some(v) && v@.len() == files_of(m@).len() && forall|i: int|
                        0 <= i < v@.len() ==> *v@[i] == files_of(m@)[i]
                },
                _ => r is None,
            },
    {
        match &self.body {
            BodyContent::Multi(m) => {
                let mut out: Vec<&MultipleFormFile> = Vec::new();
                let mut i: usize = 0;
                while i < m.len()
                    invariant
                        0 <= i <= m@.len(),
                        out@.len() == files_of(m@.subrange(0, i as int)).len(),
                        forall|j: int|
                            0 <= j < out@.len() ==> *out@[j] == files_of(m@.subrange(0, i as int))[j],
                    decreases m@.len() - i,
                {
                    let (_, v) = m.entry(i);
                    proof {
                        assert(m@.subrange(0, i + 1).drop_last() =~= m@.subrange(0, i as int));
                    }
                    match v {
                        MultipleFormData::File(f) => {
                            out.push(f);
                        },
                        MultipleFormData::Text(_) => {},
                    }
                    i = i + 1;
                }
                assert(m@.subrange(0, i as int) =~= m@);
                if out.len() == 0 {
                    None
                } else {
                    Some(out)
                }
            },
            _ => None,
        }
    }

    /// The body as text, where it was read as such.
    pub fn plain_body(&self) -> (r: Option<&str>)
        ensures
            match self.body {
                BodyContent::PureText(t) => r matches Some(x) && x@ == t@,
                _ => r is None,
            },
    {
        match &self.body {
            BodyContent::PureText(t) => Some(t.as_str()),
            _ => None,
        }
    }

    /// Whether the request had a body.
    pub fn has_body(&self) -> (r: bool)
        ensures
            r == !(self.body is NoBody),
    {
        match &self.body {
            BodyContent::NoBody => false,
            _ => true,
        }
    }
}

} // verus!
