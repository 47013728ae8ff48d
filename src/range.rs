//! Byte ranges: the `Range` request header and the window it selects.
use vstd::prelude::*;
use crate::bytes::{
    copy_range, dec_str, find_from, find_spec, lemma_dec_str_ascii, matches_at, parse_u64_max,
    parse_uint_spec, push_dec, trim_bounds, trim_spec,
};
use crate::text::{ascii_string, str_bytes, utf8_of};

verus! {

/// What a `Range` header asked for: a start and an end, either of which may
/// be missing; or nothing.
pub enum ResponseRangeMeta {
    Range(Option<u64>, Option<u64>),
    Whole,
}

/// An optional bound: absent where the text is empty or not a number.
pub open spec fn bound_spec(s: Seq<u8>) -> Option<u64> {
    if s.len() == 0 {
        None
    } else {
        match parse_uint_spec(s, u64::MAX as int) {
            Some(n) => Some(n as u64),
            None => None,
        }
    }
}

/// What a `Range` header value such as `bytes=2-5` asks for: the text after
/// the first `=`, trimmed, split at its first `-`.
pub open spec fn range_spec(v: Seq<u8>) -> ResponseRangeMeta {
    let t = trim_spec(v);
    match find_spec(t, seq![61u8], 0) {
        None => ResponseRangeMeta::Range(None, None),
        Some(p) => {
            let r = trim_spec(t.subrange(p + 1, t.len() as int));
            match find_spec(r, seq![45u8], 0) {
                None => ResponseRangeMeta::Range(None, None),
                Some(q) => ResponseRangeMeta::Range(
                    bound_spec(r.subrange(0, q)),
                    bound_spec(r.subrange(q + 1, r.len() as int)),
                ),
            }
        },
    }
}

fn bound(s: &[u8]) -> (r: Option<u64>)
    ensures
        r == bound_spec(s@),
{
    if s.len() == 0 {
        None
    } else {
        parse_u64_max(s, u64::MAX)
    }
}

fn trimmed(s: &[u8]) -> (r: Vec<u8>)
    ensures
        r@ == trim_spec(s@),
{
    let (a, b) = trim_bounds(s);
    copy_range(s, a, b)
}

/// Parses the value of a `Range` header.
pub fn parse_range_content(v: &str) -> (r: ResponseRangeMeta)
    ensures
        r == range_spec(utf8_of(v@)),
{
    let t = trimmed(str_bytes(v));
    let eq: [u8; 1] = [61];
    assert(eq@ =~= seq![61u8]);
    let p = match find_from(t.as_slice(), eq.as_slice(), 0) {
        None => return ResponseRangeMeta::Range(None, None),
        Some(p) => p,
    };
    assert(matches_at(t@, eq@, p as int));
    assert(t@.len() == t.len());
    let rest = copy_range(t.as_slice(), p + 1, t.len());
    let r = trimmed(rest.as_slice());
    let dash: [u8; 1] = [45];
    assert(dash@ =~= seq![45u8]);
    let q = match find_from(r.as_slice(), dash.as_slice(), 0) {
        None => return ResponseRangeMeta::Range(None, None),
        Some(q) => q,
    };
    assert(matches_at(r@, dash@, q as int));
    assert(r@.len() == r.len());
    let a = copy_range(r.as_slice(), 0, q);
    let e = copy_range(r.as_slice(), q + 1, r.len());
    ResponseRangeMeta::Range(bound(a.as_slice()), bound(e.as_slice()))
}

/// What a range comes to on a body of a given size.
pub enum RangeWindow {
    /// The whole body.
    Whole,
    /// Bytes `start` to `end`, both included.
    Window(u64, u64),
    /// The range cannot be served.
    Unsatisfiable,
}

/// The window a range selects in a body of `size` bytes: `s-e` is `[s, e]`,
/// `s-` runs to the last byte, `-e` is the last `e` bytes, and `-` alone is
/// no range. A window is refused where it starts after its end, starts at
/// or after the last byte, or ends past the body.
pub open spec fn window_spec(start: Option<u64>, end: Option<u64>, size: u64) -> Option<
    Option<(int, int)>,
> {
    if start is None && end is None {
        Some(None)
    } else {
        let s: int = match start {
            Some(s) => s as int,
            None => size - end->0,
        };
        let e: int = match end {
            Some(e) => if start is Some {
                e as int
            } else {
                size - 1
            },
            None => size - 1,
        };
        if s < 0 || s > e || s >= size - 1 || e >= size {
            None
        } else {
            Some(Some((s, e)))
        }
    }
}

/// Resolves a range against the size of the body.
pub fn resolve_range(start: Option<u64>, end: Option<u64>, size: u64) -> (r: RangeWindow)
    ensures
        match r {
            RangeWindow::Whole => window_spec(start, end, size) == Some(None::<(int, int)>),
            RangeWindow::Window(s, e) => window_spec(start, end, size) == Some(
                Some((s as int, e as int)),
            ),
            RangeWindow::Unsatisfiable => window_spec(start, end, size) is None,
        },
{
    if start.is_none() && end.is_none() {
        return RangeWindow::Whole;
    }
    if size == 0 {
        return RangeWindow::Unsatisfiable;
    }
    let (s, e) = match (start, end) {
        (Some(s), Some(e)) => (s, e),
        (Some(s), None) => (s, size - 1),
        (None, Some(e)) => {
            if e > size {
                return RangeWindow::Unsatisfiable;
            }
            (size - e, size - 1)
        },
        (None, None) => (0, 0),
    };
    if s > e || s >= size - 1 || e >= size {
        RangeWindow::Unsatisfiable
    } else {
        RangeWindow::Window(s, e)
    }
}

/// `bytes S-E/SIZE`
pub open spec fn content_range_text(s: nat, e: nat, size: nat) -> Seq<u8> {
    seq![98u8, 121, 116, 101, 115, 32] + dec_str(s) + seq![45u8] + dec_str(e) + seq![47u8]
        + dec_str(size)
}

/// The value of a `Content-Range` header.
pub fn content_range(s: u64, e: u64, size: u64) -> (r: String)
    ensures
        utf8_of(r@) == content_range_text(s as nat, e as nat, size as nat),
{
    let mut b: Vec<u8> = Vec::new();
    b.push(98);
    b.push(121);
    b.push(116);
    b.push(101);
    b.push(115);
    b.push(32);
    push_dec(&mut b, s);
    b.push(45);
    push_dec(&mut b, e);
    b.push(47);
    push_dec(&mut b, size);
    proof {
        lemma_dec_str_ascii(s as nat);
        lemma_dec_str_ascii(e as nat);
        lemma_dec_str_ascii(size as nat);
        assert(b@ =~= content_range_text(s as nat, e as nat, size as nat));
        assert forall|i: int| 0 <= i < b@.len() implies #[trigger] b@[i] < 128 by {
            let d1 = dec_str(s as nat);
            let d2 = dec_str(e as nat);
            let d3 = dec_str(size as nat);
            if 6 <= i < 6 + d1.len() {
                assert(b@[i] == d1[i - 6]);
            } else if 7 + d1.len() <= i < 7 + d1.len() + d2.len() {
                assert(b@[i] == d2[i - 7 - d1.len()]);
            } else if 8 + d1.len() + d2.len() <= i {
                assert(b@[i] == d3[i - 8 - d1.len() - d2.len()]);
            }
        }
    }
    ascii_string(b.as_slice())
}

/// The decimal numeral of `n` as a string.
pub fn dec_string(n: u64) -> (r: String)
    ensures
        utf8_of(r@) == dec_str(n as nat),
{
    let mut b: Vec<u8> = Vec::new();
    push_dec(&mut b, n);
    proof {
        lemma_dec_str_ascii(n as nat);
        assert(b@ =~= dec_str(n as nat));
    }
    ascii_string(b.as_slice())
}

} // verus!
