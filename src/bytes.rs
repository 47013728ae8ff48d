//! Byte-level helpers shared by the head parser, the body reader and the
//! response writer: searching, trimming, ASCII case folding and decimal or
//! hexadecimal numerals.
use vstd::prelude::*;

verus! {

/// The ASCII white space of `char::is_whitespace`: space, tab, line feed,
/// vertical tab, form feed and carriage return.
pub open spec fn is_ws(b: u8) -> bool {
    b == 32 || (9 <= b && b <= 13)
}

/// ASCII lower-casing of one byte; other bytes are left alone.
pub open spec fn lower(b: u8) -> u8 {
    if 65 <= b && b <= 90 {
        (b + 32) as u8
    } else {
        b
    }
}

/// Two byte strings are equal up to ASCII case.
pub open spec fn eq_ci(a: Seq<u8>, b: Seq<u8>) -> bool {
    a.len() == b.len() && forall|i: int| 0 <= i < a.len() ==> lower(#[trigger] a[i]) == lower(b[i])
}

/// `pat` occurs in `s` at position `i`.
pub open spec fn matches_at(s: Seq<u8>, pat: Seq<u8>, i: int) -> bool {
    0 <= i && i + pat.len() <= s.len() && s.subrange(i, i + pat.len()) == pat
}

/// `pos` is the first occurrence of `pat` in `s` at or after `from`.
pub open spec fn is_first_match(s: Seq<u8>, pat: Seq<u8>, from: int, pos: int) -> bool {
    &&& from <= pos
    &&& matches_at(s, pat, pos)
    &&& forall|j: int| from <= j < pos ==> !matches_at(s, pat, j)
}

/// `pat` occurs nowhere in `s` at or after `from`.
pub open spec fn no_match_from(s: Seq<u8>, pat: Seq<u8>, from: int) -> bool {
    forall|j: int| from <= j ==> !matches_at(s, pat, j)
}

/// The first occurrence of `pat` at or after `from`, if any.
pub open spec fn find_spec(s: Seq<u8>, pat: Seq<u8>, from: int) -> Option<int> {
    if exists|p: int| is_first_match(s, pat, from, p) {
        Some(choose|p: int| is_first_match(s, pat, from, p))
    } else {
        None
    }
}

/// The first match is unique.
pub proof fn lemma_first_match_unique(s: Seq<u8>, pat: Seq<u8>, from: int, p: int, q: int)
    requires
        is_first_match(s, pat, from, p),
        is_first_match(s, pat, from, q),
    ensures
        p == q,
{
}

/// Ties `find_spec` to a concrete first match.
pub proof fn lemma_find_spec_is(s: Seq<u8>, pat: Seq<u8>, from: int, p: int)
    requires
        is_first_match(s, pat, from, p),
    ensures
        find_spec(s, pat, from) == Some(p),
{
    let q = choose|q: int| is_first_match(s, pat, from, q);
    lemma_first_match_unique(s, pat, from, p, q);
}

/// Ties `find_spec` to the absence of any match.
pub proof fn lemma_find_spec_none(s: Seq<u8>, pat: Seq<u8>, from: int)
    requires
        no_match_from(s, pat, from),
    ensures
        find_spec(s, pat, from) is None,
{
}

/// Whether `pat` stands in `s` at position `at`.
pub fn match_at(s: &[u8], pat: &[u8], at: usize) -> (r: bool)
    ensures
        r == matches_at(s@, pat@, at as int),
{
    if at > s.len() || pat.len() > s.len() - at {
        return false;
    }
    let mut k: usize = 0;
    while k < pat.len()
        invariant
            at + pat@.len() <= s@.len(),
            s@.len() <= usize::MAX,
            0 <= k <= pat@.len(),
            forall|j: int| 0 <= j < k ==> s@[at + j] == pat@[j],
        decreases pat@.len() - k,
    {
        if s[at + k] != pat[k] {
            assert(s@.subrange(at as int, at + pat@.len())[k as int] != pat@[k as int]);
            return false;
        }
        k = k + 1;
    }
    assert(s@.subrange(at as int, at + pat@.len()) =~= pat@);
    true
}

/// The first position at or after `from` where `pat` occurs in `s`.
pub fn find_from(s: &[u8], pat: &[u8], from: usize) -> (r: Option<usize>)
    ensures
        match r {
            Some(p) => find_spec(s@, pat@, from as int) == Some(p as int),
            None => find_spec(s@, pat@, from as int) is None,
        },
        r matches Some(p) ==> is_first_match(s@, pat@, from as int, p as int),
        r is None ==> no_match_from(s@, pat@, from as int),
{
    let mut i: usize = from;
    while i < s.len()
        invariant
            from <= i,
            forall|j: int| from <= j < i ==> !matches_at(s@, pat@, j),
        decreases s@.len() - i,
    {
        if match_at(s, pat, i) {
            proof {
                lemma_find_spec_is(s@, pat@, from as int, i as int);
            }
            return Some(i);
        }
        i = i + 1;
    }
    if match_at(s, pat, i) {
        proof {
            lemma_find_spec_is(s@, pat@, from as int, i as int);
        }
        return Some(i);
    }
    assert forall|j: int| from <= j implies !matches_at(s@, pat@, j) by {
        if j > i {
            assert(j + pat@.len() > s@.len());
        }
    }
    proof {
        lemma_find_spec_none(s@, pat@, from as int);
    }
    None
}

/// The position of the first `\r\n\r\n`, the end of a request head.
pub fn find_double_crlf(s: &[u8]) -> (r: Option<usize>)
    ensures
        match r {
            Some(p) => find_spec(s@, seq![13u8, 10u8, 13u8, 10u8], 0) == Some(p as int),
            None => find_spec(s@, seq![13u8, 10u8, 13u8, 10u8], 0) is None,
        },
{
    let pat: [u8; 4] = [13, 10, 13, 10];
    assert(pat@ =~= seq![13u8, 10u8, 13u8, 10u8]);
    find_from(s, pat.as_slice(), 0)
}

/// Equality of two byte strings.
pub fn bytes_equal(a: &[u8], b: &[u8]) -> (r: bool)
    ensures
        r == (a@ == b@),
{
    if a.len() != b.len() {
        return false;
    }
    let r = match_at(a, b, 0);
    assert(a@.subrange(0, b@.len() as int) =~= a@);
    r
}

/// The position of the last `c` before `to`, or -1.
pub open spec fn last_index(f: Seq<u8>, c: u8, to: int) -> int
    decreases to,
{
    if to <= 0 {
        -1
    } else if f[to - 1] == c {
        to - 1
    } else {
        last_index(f, c, to - 1)
    }
}

pub proof fn lemma_last_index_range(f: Seq<u8>, c: u8, to: int)
    requires
        0 <= to <= f.len(),
    ensures
        -1 <= last_index(f, c, to) < to,
        last_index(f, c, to) >= 0 ==> f[last_index(f, c, to)] == c,
    decreases to,
{
    if to > 0 && f[to - 1] != c {
        lemma_last_index_range(f, c, to - 1);
    }
}

/// The position of the last `c` in `s`.
pub fn rfind_byte(s: &[u8], c: u8) -> (r: Option<usize>)
    ensures
        match r {
            Some(i) => last_index(s@, c, s@.len() as int) == i as int && i < s@.len() && s@[i as int]
                == c,
            None => last_index(s@, c, s@.len() as int) == -1,
        },
{
    let mut to: usize = s.len();
    proof {
        lemma_last_index_range(s@, c, s@.len() as int);
    }
    while to > 0
        invariant
            0 <= to <= s@.len(),
            last_index(s@, c, s@.len() as int) == last_index(s@, c, to as int),
        decreases to,
    {
        if s[to - 1] == c {
            return Some(to - 1);
        }
        to = to - 1;
    }
    None
}

/// Equality of two byte strings up to ASCII case.
pub fn eq_ignore_case(a: &[u8], b: &[u8]) -> (r: bool)
    ensures
        r == eq_ci(a@, b@),
{
    if a.len() != b.len() {
        return false;
    }
    let mut i: usize = 0;
    while i < a.len()
        invariant
            a@.len() == b@.len(),
            0 <= i <= a@.len(),
            forall|j: int| 0 <= j < i ==> lower(#[trigger] a@[j]) == lower(b@[j]),
        decreases a@.len() - i,
    {
        if lower_byte(a[i]) != lower_byte(b[i]) {
            return false;
        }
        i = i + 1;
    }
    true
}

/// ASCII lower-casing of one byte.
pub fn lower_byte(b: u8) -> (r: u8)
    ensures
        r == lower(b),
{
    if 65 <= b && b <= 90 {
        b + 32
    } else {
        b
    }
}

/// The three-byte encodings of white space: U+1680, U+2000 to U+200A,
/// U+2028, U+2029, U+202F, U+205F and U+3000.
pub open spec fn is_ws3(x: u8, y: u8, z: u8) -> bool {
    (x == 0xE1 && y == 0x9A && z == 0x80) || (x == 0xE2 && y == 0x80 && ((0x80 <= z && z <= 0x8A)
        || z == 0xA8 || z == 0xA9 || z == 0xAF)) || (x == 0xE2 && y == 0x81 && z == 0x9F) || (x
        == 0xE3 && y == 0x80 && z == 0x80)
}

/// The two-byte encodings of white space: U+0085 and U+00A0.
pub open spec fn is_ws2(x: u8, y: u8) -> bool {
    x == 0xC2 && (y == 0x85 || y == 0xA0)
}

/// The length of the encoding of a white space character (as
/// `char::is_whitespace` sees it) that starts at `i`, or 0.
pub open spec fn ws_len_at(s: Seq<u8>, i: int) -> int {
    if 0 <= i < s.len() && is_ws(s[i]) {
        1
    } else if 0 <= i && i + 2 <= s.len() && is_ws2(s[i], s[i + 1]) {
        2
    } else if 0 <= i && i + 3 <= s.len() && is_ws3(s[i], s[i + 1], s[i + 2]) {
        3
    } else {
        0
    }
}

/// The length of the encoding of a white space character that ends just
/// before `j` and starts at or after `lo`, or 0.
pub open spec fn ws_len_before(s: Seq<u8>, lo: int, j: int) -> int {
    if lo <= j - 1 && 0 <= lo && j <= s.len() && is_ws(s[j - 1]) {
        1
    } else if lo <= j - 2 && 0 <= lo && j <= s.len() && is_ws2(s[j - 2], s[j - 1]) {
        2
    } else if lo <= j - 3 && 0 <= lo && j <= s.len() && is_ws3(s[j - 3], s[j - 2], s[j - 1]) {
        3
    } else {
        0
    }
}

/// Where `s` continues after the white space at or after `from`.
pub open spec fn trim_start_spec(s: Seq<u8>, from: int) -> int
    decreases s.len() - from,
{
    let k = ws_len_at(s, from);
    if from >= s.len() || k <= 0 {
        from
    } else {
        trim_start_spec(s, from + k)
    }
}

/// Where `s` ends before the white space that runs up to `to`, not below `lo`.
pub open spec fn trim_end_spec(s: Seq<u8>, lo: int, to: int) -> int
    decreases to - lo,
{
    let k = ws_len_before(s, lo, to);
    if to <= lo || k <= 0 {
        to
    } else {
        trim_end_spec(s, lo, to - k)
    }
}

/// `s` with surrounding white space removed, as `str::trim` removes it.
pub open spec fn trim_spec(s: Seq<u8>) -> Seq<u8> {
    let a = trim_start_spec(s, 0);
    s.subrange(a, trim_end_spec(s, a, s.len() as int))
}

/// The length of the white space character encoded at `i`, or 0.
pub fn ws_at(s: &[u8], i: usize) -> (r: usize)
    requires
        i <= s@.len(),
    ensures
        r as int == ws_len_at(s@, i as int),
{
    let n = s.len();
    if i < n && is_ws_byte(s[i]) {
        1
    } else if n - i >= 2 && s[i] == 0xC2 && (s[i + 1] == 0x85 || s[i + 1] == 0xA0) {
        2
    } else if n - i >= 3 && ((s[i] == 0xE1 && s[i + 1] == 0x9A && s[i + 2] == 0x80) || (s[i]
        == 0xE2 && s[i + 1] == 0x80 && ((0x80 <= s[i + 2] && s[i + 2] <= 0x8A) || s[i + 2] == 0xA8
        || s[i + 2] == 0xA9 || s[i + 2] == 0xAF)) || (s[i] == 0xE2 && s[i + 1] == 0x81 && s[i + 2]
        == 0x9F) || (s[i] == 0xE3 && s[i + 1] == 0x80 && s[i + 2] == 0x80)) {
        3
    } else {
        0
    }
}

/// The length of the white space character that ends just before `j` and
/// starts at or after `lo`, or 0.
pub fn ws_before(s: &[u8], lo: usize, j: usize) -> (r: usize)
    requires
        lo <= j <= s@.len(),
    ensures
        r as int == ws_len_before(s@, lo as int, j as int),
{
    let d = j - lo;
    if d >= 1 && is_ws_byte(s[j - 1]) {
        1
    } else if d >= 2 && s[j - 2] == 0xC2 && (s[j - 1] == 0x85 || s[j - 1] == 0xA0) {
        2
    } else if d >= 3 && ((s[j - 3] == 0xE1 && s[j - 2] == 0x9A && s[j - 1] == 0x80) || (s[j - 3]
        == 0xE2 && s[j - 2] == 0x80 && ((0x80 <= s[j - 1] && s[j - 1] <= 0x8A) || s[j - 1] == 0xA8
        || s[j - 1] == 0xA9 || s[j - 1] == 0xAF)) || (s[j - 3] == 0xE2 && s[j - 2] == 0x81 && s[j
        - 1] == 0x9F) || (s[j - 3] == 0xE3 && s[j - 2] == 0x80 && s[j - 1] == 0x80)) {
        3
    } else {
        0
    }
}

/// The bounds of `s` without its surrounding white space.
pub fn trim_bounds(s: &[u8]) -> (r: (usize, usize))
    ensures
        r.0 as int == trim_start_spec(s@, 0),
        r.1 as int == trim_end_spec(s@, r.0 as int, s@.len() as int),
        r.0 <= r.1 <= s@.len(),
        s@.subrange(r.0 as int, r.1 as int) == trim_spec(s@),
{
    let mut a: usize = 0;
    loop
        invariant
            0 <= a <= s@.len(),
            trim_start_spec(s@, 0) == trim_start_spec(s@, a as int),
        ensures
            a <= s@.len(),
            trim_start_spec(s@, 0) == a as int,
        decreases s@.len() - a,
    {
        if a >= s.len() {
            break;
        }
        let k = ws_at(s, a);
        if k == 0 {
            break;
        }
        a = a + k;
    }
    let mut b: usize = s.len();
    loop
        invariant
            a <= b <= s@.len(),
            trim_end_spec(s@, a as int, s@.len() as int) == trim_end_spec(s@, a as int, b as int),
        ensures
            a <= b <= s@.len(),
            trim_end_spec(s@, a as int, s@.len() as int) == b as int,
        decreases b,
    {
        if b <= a {
            break;
        }
        let k = ws_before(s, a, b);
        if k == 0 {
            break;
        }
        b = b - k;
    }
    assert(s@.subrange(a as int, b as int) == trim_spec(s@));
    (a, b)
}

/// Whether a byte is ASCII whitespace.
pub fn is_ws_byte(b: u8) -> (r: bool)
    ensures
        r == is_ws(b),
{
    b == 32 || (9 <= b && b <= 13)
}

/// A copy of `s[a..b]`.
pub fn copy_range(s: &[u8], a: usize, b: usize) -> (r: Vec<u8>)
    requires
        a <= b <= s@.len(),
    ensures
        r@ == s@.subrange(a as int, b as int),
{
    let mut out: Vec<u8> = Vec::new();
    let mut i: usize = a;
    while i < b
        invariant
            a <= i <= b <= s@.len(),
            out@ == s@.subrange(a as int, i as int),
        decreases b - i,
    {
        out.push(s[i]);
        i = i + 1;
        assert(out@ =~= s@.subrange(a as int, i as int));
    }
    out
}

/// Appends `s[a..b]` to `out`.
pub fn append_range(out: &mut Vec<u8>, s: &[u8], a: usize, b: usize)
    requires
        a <= b <= s@.len(),
    ensures
        final(out)@ == old(out)@ + s@.subrange(a as int, b as int),
{
    let ghost start = out@;
    let mut i: usize = a;
    while i < b
        invariant
            a <= i <= b <= s@.len(),
            out@ == start + s@.subrange(a as int, i as int),
        decreases b - i,
    {
        out.push(s[i]);
        i = i + 1;
        assert(out@ =~= start + s@.subrange(a as int, i as int));
    }
}

/// Whether a byte is an ASCII decimal digit.
pub open spec fn is_digit(b: u8) -> bool {
    48 <= b && b <= 57
}

/// The value of a string of decimal digits.
pub open spec fn dec_value(s: Seq<u8>) -> nat
    decreases s.len(),
{
    if s.len() == 0 {
        0
    } else {
        dec_value(s.drop_last()) * 10 + (s.last() - 48) as nat
    }
}

/// The digits of an unsigned integer, as `usize::from_str` accepts them: an
/// optional `+`, then one digit or more.
pub open spec fn digits_part(s: Seq<u8>) -> Seq<u8> {
    if s.len() > 0 && s[0] == 43 {
        s.drop_first()
    } else {
        s
    }
}

pub open spec fn is_numeral(s: Seq<u8>) -> bool {
    let d = digits_part(s);
    d.len() > 0 && forall|i: int| 0 <= i < d.len() ==> is_digit(#[trigger] d[i])
}

/// What `s.parse::<T>()` gives for an unsigned type whose largest value is `max`.
pub open spec fn parse_uint_spec(s: Seq<u8>, max: int) -> Option<nat> {
    if is_numeral(s) && dec_value(digits_part(s)) <= max {
        Some(dec_value(digits_part(s)))
    } else {
        None
    }
}

proof fn lemma_dec_value_step(s: Seq<u8>, i: int)
    requires
        0 <= i < s.len(),
    ensures
        dec_value(s.subrange(0, i + 1)) == dec_value(s.subrange(0, i)) * 10 + (s[i] - 48) as nat,
{
    assert(s.subrange(0, i + 1).drop_last() =~= s.subrange(0, i));
}

proof fn lemma_dec_value_mono(s: Seq<u8>, i: int)
    requires
        0 <= i <= s.len(),
        forall|k: int| 0 <= k < s.len() ==> is_digit(#[trigger] s[k]),
    ensures
        dec_value(s.subrange(0, i)) <= dec_value(s),
    decreases s.len() - i,
{
    if i < s.len() {
        lemma_dec_value_mono(s, i + 1);
        lemma_dec_value_step(s, i);
    } else {
        assert(s.subrange(0, i) =~= s);
    }
}

/// Parses an unsigned decimal numeral that must fit below or at `max`.
pub fn parse_u64_max(s: &[u8], max: u64) -> (r: Option<u64>)
    ensures
        match r {
            Some(v) => parse_uint_spec(s@, max as int) == Some(v as nat),
            None => parse_uint_spec(s@, max as int) is None,
        },
{
    let start: usize = if s.len() > 0 && s[0] == 43 {
        1
    } else {
        0
    };
    let ghost d = digits_part(s@);
    assert(d =~= s@.subrange(start as int, s@.len() as int));
    if start >= s.len() {
        return None;
    }
    let mut v: u64 = 0;
    let mut i: usize = start;
    while i < s.len()
        invariant
            start <= i <= s@.len(),
            d == s@.subrange(start as int, s@.len() as int),
            d == digits_part(s@),
            forall|k: int| 0 <= k < i - start ==> is_digit(#[trigger] d[k]),
            v as nat == dec_value(d.subrange(0, i - start)),
            v <= max,
        decreases s@.len() - i,
    {
        let c = s[i];
        proof {
            lemma_dec_value_step(d, i - start);
        }
        if c < 48 || c > 57 {
            proof {
                if is_numeral(s@) {
                    assert(is_digit(digits_part(s@)[i - start]));
                }
            }
            return None;
        }
        let digit: u64 = (c - 48) as u64;
        if digit > max || v > (max - digit) / 10 {
            // the value so far times ten plus this digit exceeds the bound
            assert(v * 10 + digit > max) by (nonlinear_arith)
                requires
                    digit > max || v > (max - digit) / 10,
                    v >= 0,
            ;
            proof {
                assert forall|k: int| 0 <= k < i + 1 - start implies is_digit(
                    #[trigger] d.subrange(0, i + 1 - start)[k],
                ) by {}
                if is_numeral(s@) {
                    assert forall|k: int| 0 <= k < d.len() implies is_digit(#[trigger] d[k]) by {
                        assert(is_digit(digits_part(s@)[k]));
                    }
                    lemma_dec_value_mono(d, i + 1 - start);
                    assert(d.subrange(0, i + 1 - start).subrange(0, i + 1 - start) =~= d.subrange(
                        0,
                        i + 1 - start,
                    ));
                }
            }
            return None;
        }
        v = v * 10 + digit;
        i = i + 1;
    }
    assert(d.subrange(0, i - start) =~= d);
    Some(v)
}

/// The decimal numeral of `n`.
pub open spec fn dec_str(n: nat) -> Seq<u8>
    decreases n,
{
    if n < 10 {
        seq![(48 + n) as u8]
    } else {
        dec_str(n / 10).push((48 + n % 10) as u8)
    }
}

/// Appends the decimal numeral of `n` to `out`.
pub fn push_dec(out: &mut Vec<u8>, n: u64)
    ensures
        final(out)@ == old(out)@ + dec_str(n as nat),
    decreases n,
{
    if n < 10 {
        out.push(48 + n as u8);
        assert(final(out)@ =~= old(out)@ + dec_str(n as nat));
    } else {
        push_dec(out, n / 10);
        out.push(48 + (n % 10) as u8);
        assert(final(out)@ =~= old(out)@ + dec_str(n as nat));
    }
}

pub proof fn lemma_dec_str_ascii(n: nat)
    ensures
        forall|i: int| 0 <= i < dec_str(n).len() ==> #[trigger] dec_str(n)[i] < 128,
        dec_str(n).len() > 0,
    decreases n,
{
    if n >= 10 {
        lemma_dec_str_ascii(n / 10);
        assert forall|i: int| 0 <= i < dec_str(n).len() implies #[trigger] dec_str(n)[i] < 128 by {
            if i < dec_str(n / 10).len() {
                assert(dec_str(n)[i] == dec_str(n / 10)[i]);
            }
        }
    }
}

/// One upper-case hexadecimal digit.
pub open spec fn hex_digit(d: nat) -> u8 {
    if d < 10 {
        (48 + d) as u8
    } else {
        (55 + d) as u8
    }
}

/// The upper-case hexadecimal numeral of `n`, as `format!("{:X}", n)` writes it.
pub open spec fn hex_str(n: nat) -> Seq<u8>
    decreases n,
{
    if n < 16 {
        seq![hex_digit(n)]
    } else {
        hex_str(n / 16).push(hex_digit(n % 16))
    }
}

/// Appends the upper-case hexadecimal numeral of `n` to `out`.
pub fn push_hex(out: &mut Vec<u8>, n: usize)
    ensures
        final(out)@ == old(out)@ + hex_str(n as nat),
    decreases n,
{
    if n < 16 {
        let d: u8 = n as u8;
        out.push(if d < 10 { 48 + d } else { 55 + d });
        assert(final(out)@ =~= old(out)@ + hex_str(n as nat));
    } else {
        push_hex(out, n / 16);
        let d: u8 = (n % 16) as u8;
        out.push(if d < 10 { 48 + d } else { 55 + d });
        assert(final(out)@ =~= old(out)@ + hex_str(n as nat));
    }
}

} // verus!
