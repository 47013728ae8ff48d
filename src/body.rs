//! Request bodies framed by `Content-Length`: whether there is one, how it is
//! read, and what it becomes (plain text, a URL-encoded form, a multipart
//! form).
use vstd::prelude::*;
use vstd::utf8::{decode_utf8, valid_utf8};
use crate::bytes::{
    copy_range, eq_ci, eq_ignore_case, find_from, find_spec, matches_at, parse_u64_max,
    parse_uint_spec, trim_bounds, trim_spec,
};
use crate::form::{put, FieldMap};
use crate::headers::{lookup, HeaderMap};
use crate::multipart::MultipleFormData;
use crate::text::{
    cut_ok, lemma_decode_utf8_of, lemma_valid_piece, str_bytes, string_of_range, utf8_of,
    utf8_string,
};

verus! {

/// What a request's body became.
pub enum BodyContent {
    UrlForm(FieldMap<String>),
    PureText(String),
    Multi(FieldMap<MultipleFormData>),
    NoBody,
    Bad,
    TooLarge,
}

/// Where the `&`-separated segment that starts at `a` ends.
pub open spec fn seg_end(s: Seq<u8>, a: int) -> int {
    match find_spec(s, seq![38u8], a) {
        Some(p) => p,
        None => s.len() as int,
    }
}

/// The key and value of the segment `s[a..e]`, split at its first `=`.
pub open spec fn pair_of(s: Seq<u8>, a: int, e: int) -> Option<(Seq<u8>, Seq<u8>)> {
    match find_spec(s.subrange(a, e), seq![61u8], 0) {
        None => None,
        Some(q) => Some((s.subrange(a, a + q), s.subrange(a + q + 1, e))),
    }
}

/// The `key=value` pairs of the `&`-separated segments from `a` on. A segment
/// without `=` is dropped, and so is one with an empty side unless
/// `keep_empty`.
pub open spec fn pairs_from(s: Seq<u8>, a: int, keep_empty: bool) -> Seq<(Seq<u8>, Seq<u8>)>
    decreases s.len() - a,
{
    let e = seg_end(s, a);
    if a < 0 || a > s.len() || e < a || e > s.len() {
        Seq::empty()
    } else {
        let here = match pair_of(s, a, e) {
            Some(p) => if keep_empty || (p.0.len() > 0 && p.1.len() > 0) {
                seq![p]
            } else {
                Seq::empty()
            },
            None => Seq::empty(),
        };
        if e >= s.len() {
            here
        } else {
            here + pairs_from(s, e + 1, keep_empty)
        }
    }
}

/// The pairs a list of ranges `(a, q, e)` stands for: `s[a..q]` and `s[q+1..e]`.
pub open spec fn ranges_pairs(s: Seq<u8>, r: Seq<(usize, usize, usize)>) -> Seq<
    (Seq<u8>, Seq<u8>),
> {
    r.map_values(
        |t: (usize, usize, usize)| (s.subrange(t.0 as int, t.1 as int), s.subrange(t.1 + 1, t.2 as int)),
    )
}

/// The ranges are cut at `&` and `=`.
pub open spec fn ranges_cut(s: Seq<u8>, r: Seq<(usize, usize, usize)>, from: int) -> bool {
    forall|i: int|
        0 <= i < r.len() ==> {
            let t = #[trigger] r[i];
            &&& from <= t.0 <= t.1 < t.2 + 1 <= s.len() + 1
            &&& t.1 < s.len() && s[t.1 as int] == 61
            &&& (t.0 == from || s[t.0 - 1] == 38)
            &&& (t.2 == s.len() || s[t.2 as int] == 38)
        }
}

/// The `key=value` pairs of `s` from `from` on, as ranges.
#[verifier::rlimit(60)]
pub fn pairs(s: &[u8], from: usize, keep_empty: bool) -> (r: Vec<(usize, usize, usize)>)
    requires
        from <= s@.len(),
    ensures
        ranges_pairs(s@, r@) == pairs_from(s@, from as int, keep_empty),
        ranges_cut(s@, r@, from as int),
{
    let mut out: Vec<(usize, usize, usize)> = Vec::new();
    let mut a: usize = from;
    let amp: [u8; 1] = [38];
    let eq: [u8; 1] = [61];
    assert(amp@ =~= seq![38u8]);
    assert(eq@ =~= seq![61u8]);
    assert(ranges_pairs(s@, out@) =~= Seq::<(Seq<u8>, Seq<u8>)>::empty());
    loop
        invariant
            from <= a <= s@.len(),
            amp@ == seq![38u8],
            eq@ == seq![61u8],
            a == from || s@[a - 1] == 38,
            pairs_from(s@, from as int, keep_empty) == ranges_pairs(s@, out@) + pairs_from(
                s@,
                a as int,
                keep_empty,
            ),
            ranges_cut(s@, out@, from as int),
        decreases s@.len() - a,
    {
        let e = match find_from(s, amp.as_slice(), a) {
            Some(p) => {
                assert(matches_at(s@, amp@, p as int));
                assert(s@.subrange(p as int, p + 1)[0] == 38);
                p
            },
            None => s.len(),
        };
        let seg = copy_range(s, a, e);
        let ghost here: Seq<(Seq<u8>, Seq<u8>)> = Seq::empty();
        match find_from(seg.as_slice(), eq.as_slice(), 0) {
            Some(q) => {
                assert(matches_at(seg@, eq@, q as int));
                assert(seg@.subrange(q as int, q + 1)[0] == 61);
                let t = (a, a + q, e);
                assert(s@.subrange(a as int, a + q) =~= seg@.subrange(0, q as int));
                assert(s@.subrange(a + q + 1, e as int) =~= seg@.subrange(q + 1, seg@.len() as int));
                if keep_empty || (q > 0 && e - (a + q + 1) > 0) {
                    let ghost before = out@;
                    out.push(t);
                    proof {
                        here = seq![(s@.subrange(a as int, a + q), s@.subrange(a + q + 1, e as int))];
                        assert(ranges_pairs(s@, out@) =~= ranges_pairs(s@, before) + here);
                    }
                }
            },
            None => {},
        }
        if e >= s.len() {
            assert(pairs_from(s@, a as int, keep_empty) == here);
            assert(pairs_from(s@, from as int, keep_empty) =~= ranges_pairs(s@, out@));
            return out;
        }
        proof {
            assert(pairs_from(s@, a as int, keep_empty) == here + pairs_from(
                s@,
                e + 1,
                keep_empty,
            ));
            assert(ranges_pairs(s@, out@) + pairs_from(s@, e + 1, keep_empty) =~= (ranges_pairs(
                s@,
                out@,
            ).subrange(0, ranges_pairs(s@, out@).len() - here.len()) + here) + pairs_from(
                s@,
                e + 1,
                keep_empty,
            ));
        }
        a = e + 1;
    }
}

/// The map that setting each pair in turn gives.
pub open spec fn fold_put(p: Seq<(Seq<u8>, Seq<u8>)>) -> Seq<(Seq<char>, Seq<char>)>
    decreases p.len(),
{
    if p.len() == 0 {
        Seq::empty()
    } else {
        put(fold_put(p.drop_last()), decode_utf8(p.last().0), decode_utf8(p.last().1))
    }
}

/// A map of strings from the pairs that `r` marks in well-formed UTF-8.
pub fn map_of_ranges(s: &[u8], r: &Vec<(usize, usize, usize)>, from: usize) -> (m: FieldMap<String>)
    requires
        valid_utf8(s@),
        from <= s@.len(),
        from == 0 || s@[from - 1] < 128,
        ranges_cut(s@, r@, from as int),
    ensures
        m@ == fold_put(ranges_pairs(s@, r@)),
{
    let mut m: FieldMap<String> = FieldMap::new();
    let mut i: usize = 0;
    assert(ranges_pairs(s@, r@.subrange(0, 0)) =~= Seq::<(Seq<u8>, Seq<u8>)>::empty());
    while i < r.len()
        invariant
            0 <= i <= r@.len(),
            valid_utf8(s@),
            from <= s@.len(),
            from == 0 || s@[from - 1] < 128,
            ranges_cut(s@, r@, from as int),
            m@ == fold_put(ranges_pairs(s@, r@.subrange(0, i as int))),
        decreases r@.len() - i,
    {
        let t = r[i];
        assert(t == r@[i as int]);
        proof {
            assert(cut_ok(s@, t.0 as int));
            assert(cut_ok(s@, t.1 as int));
            assert(cut_ok(s@, t.1 + 1));
            assert(cut_ok(s@, t.2 as int));
            lemma_valid_piece(s@, t.0 as int, t.1 as int);
            lemma_valid_piece(s@, t.1 + 1, t.2 as int);
        }
        let k = match string_of_range(s, t.0, t.1) {
            Some(k) => k,
            None => String::new(),
        };
        let v = match string_of_range(s, t.1 + 1, t.2) {
            Some(v) => v,
            None => String::new(),
        };
        proof {
            lemma_decode_utf8_of(k@, s@.subrange(t.0 as int, t.1 as int));
            lemma_decode_utf8_of(v@, s@.subrange(t.1 + 1, t.2 as int));
            let ps = ranges_pairs(s@, r@.subrange(0, i + 1));
            assert(ps.drop_last() =~= ranges_pairs(s@, r@.subrange(0, i as int)));
            assert(ps.last() == (s@.subrange(t.0 as int, t.1 as int), s@.subrange(t.1 + 1, t.2 as int)));
        }
        m.put(k, v);
        i = i + 1;
    }
    assert(r@.subrange(0, i as int) =~= r@);
    m
}

/// A URL-encoded form: `&`-separated `key=value` pairs, without percent
/// decoding; a pair with an empty key or value is dropped, and a later pair
/// takes the value of an earlier one with the same key. A body that is not
/// UTF-8 is bad.
pub fn parse_url_form_body(container: &[u8]) -> (r: BodyContent)
    ensures
        valid_utf8(container@) ==> (r matches BodyContent::UrlForm(m) && m@ == fold_put(
            pairs_from(container@, 0, false),
        )),
        !valid_utf8(container@) ==> r is Bad,
{
    if utf8_string(container).is_none() {
        return BodyContent::Bad;
    }
    let r = pairs(container, 0, false);
    BodyContent::UrlForm(map_of_ranges(container, &r, 0))
}

/// Whether a request announces a body, and how long.
pub enum HasBody {
    Len(usize),
    NoLength,
    Bad,
}

pub open spec fn has_body_spec(h: Seq<(Seq<char>, Seq<char>)>) -> HasBody {
    match lookup(h, "content-length"@) {
        None => HasBody::NoLength,
        Some(v) => match parse_uint_spec(utf8_of(v), usize::MAX as int) {
            Some(n) => HasBody::Len(n as usize),
            None => HasBody::Bad,
        },
    }
}

/// The body length a request's `Content-Length` gives, if it has one.
pub fn has_body(head_map: &HeaderMap) -> (r: HasBody)
    ensures
        r == has_body_spec(head_map@),
{
    match head_map.get("content-length") {
        None => HasBody::NoLength,
        Some(v) => match parse_u64_max(str_bytes(v), usize::MAX as u64) {
            Some(n) => HasBody::Len(n as usize),
            None => HasBody::Bad,
        },
    }
}

/// `pat` occurs in `s` up to ASCII case.
pub open spec fn contains_ci(s: Seq<u8>, pat: Seq<u8>) -> bool {
    exists|i: int| 0 <= i && i + pat.len() <= s.len() && eq_ci(#[trigger] s.subrange(i, i + pat.len()), pat)
}

/// Whether `pat` occurs in `s` up to ASCII case.
pub fn contains_ignore_case(s: &[u8], pat: &[u8]) -> (r: bool)
    ensures
        r == contains_ci(s@, pat@),
{
    if pat.len() > s.len() {
        return false;
    }
    if pat.len() == 0 {
        assert(eq_ci(s@.subrange(0int, 0int + pat@.len()), pat@));
        return true;
    }
    let lim = s.len() - pat.len();
    let mut i: usize = 0;
    while i <= lim
        invariant
            0 < pat@.len() <= s@.len(),
            s@.len() == s.len(),
            lim == s@.len() - pat@.len(),
            i <= lim + 1,
            forall|j: int|
                0 <= j < i ==> !eq_ci(#[trigger] s@.subrange(j, j + pat@.len()), pat@),
        decreases lim + 1 - i,
    {
        let piece = copy_range(s, i, i + pat.len());
        if eq_ignore_case(piece.as_slice(), pat) {
            return true;
        }
        i = i + 1;
    }
    false
}

/// `multipart/form-data`
pub open spec fn multipart_type() -> Seq<u8> {
    seq![109u8, 117, 108, 116, 105, 112, 97, 114, 116, 47, 102, 111, 114, 109, 45, 100, 97, 116, 97]
}

/// `application/x-www-form-urlencoded`
pub open spec fn url_form_type() -> Seq<u8> {
    seq![
        97u8, 112, 112, 108, 105, 99, 97, 116, 105, 111, 110, 47, 120, 45, 119, 119, 119, 45, 102,
        111, 114, 109, 45, 117, 114, 108, 101, 110, 99, 111, 100, 101, 100,
    ]
}

/// `--` and the boundary that a multipart content type declares: what
/// follows the `=` after the first `;`, trimmed.
pub open spec fn boundary_spec(ct: Seq<u8>) -> Option<Seq<u8>> {
    match find_spec(ct, seq![59u8], 0) {
        None => None,
        Some(p) => {
            let r = trim_spec(ct.subrange(p + 1, ct.len() as int));
            match find_spec(r, seq![61u8], 0) {
                None => None,
                Some(q) => Some(seq![45u8, 45] + trim_spec(r.subrange(q + 1, r.len() as int))),
            }
        },
    }
}

/// The boundary line, `--` and the boundary, of a multipart content type.
pub fn boundary_of(ct: &[u8]) -> (r: Option<Vec<u8>>)
    ensures
        match r {
            Some(b) => boundary_spec(ct@) == Some(b@),
            None => boundary_spec(ct@) is None,
        },
{
    let semi: [u8; 1] = [59];
    assert(semi@ =~= seq![59u8]);
    let p = match find_from(ct, semi.as_slice(), 0) {
        Some(p) => p,
        None => return None,
    };
    assert(matches_at(ct@, semi@, p as int));
    assert(ct@.len() == ct.len());
    let rest = copy_range(ct, p + 1, ct.len());
    let (x, y) = trim_bounds(rest.as_slice());
    let r = copy_range(rest.as_slice(), x, y);
    let eq: [u8; 1] = [61];
    assert(eq@ =~= seq![61u8]);
    let q = match find_from(r.as_slice(), eq.as_slice(), 0) {
        Some(q) => q,
        None => return None,
    };
    assert(matches_at(r@, eq@, q as int));
    let tail = copy_range(r.as_slice(), q + 1, r.len());
    let (a, b) = trim_bounds(tail.as_slice());
    let mut out: Vec<u8> = Vec::new();
    out.push(45);
    out.push(45);
    crate::bytes::append_range(&mut out, tail.as_slice(), a, b);
    assert(out@ =~= seq![45u8, 45] + trim_spec(r@.subrange(q + 1, r@.len() as int)));
    Some(out)
}

/// How a request's body is to be read.
pub enum BodyPlan {
    /// There is none.
    NoBody,
    /// It cannot be read; the connection closes.
    Bad,
    /// It is over the size limit; the connection closes.
    TooLarge,
    /// Read this many bytes more, then decode the whole as text or, where
    /// `url_form`, as a URL-encoded form.
    Raw(usize, bool),
    /// Stream a multipart form with this boundary line; this many bytes are
    /// still to be read.
    Multipart(Vec<u8>, usize),
}

/// The plan for a body of `len` bytes, of which `pre_read` came with the
/// head, under a limit of `max_body_size` bytes for non-multipart bodies.
pub open spec fn body_plan_spec(
    h: Seq<(Seq<char>, Seq<char>)>,
    len: usize,
    pre_read: usize,
    max_body_size: usize,
) -> Option<BodyPlanSpec> {
    if len == 0 {
        Some(BodyPlanSpec::NoBody)
    } else {
        match lookup(h, "content-type"@) {
            None => Some(BodyPlanSpec::Bad),
            Some(t) => {
                let ct = utf8_of(t);
                let need: int = if len > pre_read {
                    len - pre_read
                } else {
                    0
                };
                if contains_ci(ct, multipart_type()) {
                    match boundary_spec(ct) {
                        None => Some(BodyPlanSpec::Bad),
                        Some(b) => Some(BodyPlanSpec::Multipart(b, need)),
                    }
                } else if pre_read + need > max_body_size {
                    Some(BodyPlanSpec::TooLarge)
                } else {
                    Some(BodyPlanSpec::Raw(need, eq_ci(ct, url_form_type())))
                }
            },
        }
    }
}

/// A body plan in mathematical terms.
pub enum BodyPlanSpec {
    NoBody,
    Bad,
    TooLarge,
    Raw(int, bool),
    Multipart(Seq<u8>, int),
}

pub open spec fn plan_view(p: BodyPlan) -> BodyPlanSpec {
    match p {
        BodyPlan::NoBody => BodyPlanSpec::NoBody,
        BodyPlan::Bad => BodyPlanSpec::Bad,
        BodyPlan::TooLarge => BodyPlanSpec::TooLarge,
        BodyPlan::Raw(n, f) => BodyPlanSpec::Raw(n as int, f),
        BodyPlan::Multipart(b, n) => BodyPlanSpec::Multipart(b@, n as int),
    }
}

/// Decides how a body is read, from the request's headers.
pub fn read_body(head_map: &HeaderMap, len: usize, pre_read: usize, max_body_size: usize) -> (r:
    BodyPlan)
    ensures
        body_plan_spec(head_map@, len, pre_read, max_body_size) == Some(plan_view(r)),
{
    if len == 0 {
        return BodyPlan::NoBody;
    }
    let t = match head_map.get("content-type") {
        None => return BodyPlan::Bad,
        Some(t) => t,
    };
    let ct = str_bytes(t);
    let need: usize = if len > pre_read {
        len - pre_read
    } else {
        0
    };
    let mp: [u8; 19] = [
        109, 117, 108, 116, 105, 112, 97, 114, 116, 47, 102, 111, 114, 109, 45, 100, 97, 116, 97,
    ];
    assert(mp@ =~= multipart_type());
    if contains_ignore_case(ct, mp.as_slice()) {
        return match boundary_of(ct) {
            None => BodyPlan::Bad,
            Some(b) => BodyPlan::Multipart(b, need),
        };
    }
    if pre_read > max_body_size || need > max_body_size - pre_read {
        return BodyPlan::TooLarge;
    }
    let uf: [u8; 33] = [
        97, 112, 112, 108, 105, 99, 97, 116, 105, 111, 110, 47, 120, 45, 119, 119, 119, 45, 102,
        111, 114, 109, 45, 117, 114, 108, 101, 110, 99, 111, 100, 101, 100,
    ];
    assert(uf@ =~= url_form_type());
    BodyPlan::Raw(need, eq_ignore_case(ct, uf.as_slice()))
}

/// What a fully read non-multipart body becomes: a URL-encoded form, or text
/// where it is UTF-8, else bad.
pub fn finish_body(url_form: bool, data: &[u8]) -> (r: BodyContent)
    ensures
        url_form && valid_utf8(data@) ==> (r matches BodyContent::UrlForm(m) && m@ == fold_put(
            pairs_from(data@, 0, false),
        )),
        !url_form && valid_utf8(data@) ==> (r matches BodyContent::PureText(t) && utf8_of(t@)
            == data@),
        !valid_utf8(data@) ==> r is Bad,
{
    if url_form {
        parse_url_form_body(data)
    } else {
        match utf8_string(data) {
            Some(t) => BodyContent::PureText(t),
            None => BodyContent::Bad,
        }
    }
}

} // verus!
