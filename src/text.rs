//! Text made of bytes: UTF-8 decoding and the bytes of a string.
use vstd::prelude::*;
use vstd::utf8::{
    decode_utf8, encode_utf8_decode_utf8, encode_scalar, encode_utf8, encode_utf8_valid_utf8,
    is_char_boundary_iff_not_is_continuation_byte, is_char_boundary_start_end_of_seq,
    pop_first_scalar, valid_utf8, valid_utf8_concat, valid_utf8_split,
};

verus! {

/// The UTF-8 bytes of a string's characters.
pub open spec fn utf8_of(s: Seq<char>) -> Seq<u8> {
    encode_utf8(s)
}

/// A cut of well-formed UTF-8 is well-formed where each end of the cut is an
/// end of the whole, or sits next to an ASCII byte on the side the cut keeps
/// or on the side it drops.
pub open spec fn cut_ok(b: Seq<u8>, i: int) -> bool {
    i == 0 || i == b.len() || b[i] < 128 || b[i - 1] < 128
}

proof fn lemma_boundary_prefix_valid(b: Seq<u8>, i: int)
    requires
        valid_utf8(b),
        0 <= i <= b.len(),
        i == 0 || i == b.len() || b[i] < 128,
    ensures
        valid_utf8(b.subrange(0, i)),
        valid_utf8(b.subrange(i, b.len() as int)),
{
    if i == b.len() || i == 0 {
        is_char_boundary_start_end_of_seq(b);
    } else {
        is_char_boundary_iff_not_is_continuation_byte(b, i);
    }
    valid_utf8_split(b, i);
}

proof fn lemma_drop_ascii_head(d: Seq<u8>)
    requires
        valid_utf8(d),
        d.len() > 0,
        d[0] < 128,
    ensures
        valid_utf8(d.subrange(1, d.len() as int)),
{
    assert(pop_first_scalar(d) =~= d.subrange(1, d.len() as int));
}

/// A suffix of well-formed UTF-8 starting at a good cut is well-formed.
pub proof fn lemma_valid_suffix(b: Seq<u8>, a: int)
    requires
        valid_utf8(b),
        0 <= a <= b.len(),
        cut_ok(b, a),
    ensures
        valid_utf8(b.subrange(a, b.len() as int)),
{
    if a == 0 || a == b.len() || b[a] < 128 {
        lemma_boundary_prefix_valid(b, a);
    } else {
        lemma_boundary_prefix_valid(b, a - 1);
        let d = b.subrange(a - 1, b.len() as int);
        lemma_drop_ascii_head(d);
        assert(d.subrange(1, d.len() as int) =~= b.subrange(a, b.len() as int));
    }
}

/// A piece of well-formed UTF-8 between two good cuts is well-formed.
pub proof fn lemma_valid_piece(b: Seq<u8>, a: int, e: int)
    requires
        valid_utf8(b),
        0 <= a <= e <= b.len(),
        cut_ok(b, a),
        cut_ok(b, e),
    ensures
        valid_utf8(b.subrange(a, e)),
{
    if e == b.len() || e == 0 || b[e] < 128 {
        lemma_boundary_prefix_valid(b, e);
    } else {
        lemma_boundary_prefix_valid(b, e - 1);
        let c0 = b.subrange(0, e - 1);
        assert(valid_utf8(seq![b[e - 1]])) by {
            reveal_with_fuel(valid_utf8, 2);
            assert(pop_first_scalar(seq![b[e - 1]]) =~= Seq::<u8>::empty());
        }
        valid_utf8_concat(c0, seq![b[e - 1]]);
        assert(c0 + seq![b[e - 1]] =~= b.subrange(0, e));
    }
    let c = b.subrange(0, e);
    if a == e {
        assert(b.subrange(a, e) =~= Seq::<u8>::empty());
    } else {
        assert(cut_ok(c, a));
        lemma_valid_suffix(c, a);
        assert(c.subrange(a, c.len() as int) =~= b.subrange(a, e));
    }
}

/// The bytes of two strings put together are the bytes of each, in turn.
pub proof fn lemma_utf8_concat(a: Seq<char>, b: Seq<char>)
    ensures
        utf8_of(a + b) == utf8_of(a) + utf8_of(b),
    decreases a.len(),
{
    if a.len() == 0 {
        assert(a + b =~= b);
        assert(utf8_of(a) =~= Seq::<u8>::empty());
        assert(utf8_of(a) + utf8_of(b) =~= utf8_of(b));
    } else {
        lemma_utf8_concat(a.drop_first(), b);
        assert((a + b).drop_first() =~= a.drop_first() + b);
        assert((a + b)[0] == a[0]);
        assert(utf8_of(a + b) =~= utf8_of(a) + utf8_of(b));
    }
}

/// The characters that the bytes of a string decode to are the string's.
pub proof fn lemma_decode_utf8_of(s: Seq<char>, b: Seq<u8>)
    requires
        utf8_of(s) == b,
    ensures
        decode_utf8(b) == s,
{
    encode_utf8_decode_utf8(s);
}

/// The bytes of a string are well-formed UTF-8.
pub proof fn lemma_utf8_of_valid(s: Seq<char>)
    ensures
        valid_utf8(utf8_of(s)),
{
    encode_utf8_valid_utf8(s);
}

/// The first byte of a string that starts with an ASCII character is that
/// character.
pub proof fn lemma_first_byte_ascii(s: Seq<char>)
    requires
        s.len() > 0,
        (s[0] as u32) < 128,
    ensures
        utf8_of(s).len() > 0,
        utf8_of(s)[0] == (s[0] as u32) as u8,
{
    let c = s[0] as u32;
    assert(c & 0x7F == c) by (bit_vector)
        requires
            c < 128,
    ;
    assert(encode_scalar(c) =~= seq![c as u8]);
}

/// Bytes that are all ASCII are well-formed UTF-8.
pub proof fn lemma_ascii_valid(b: Seq<u8>)
    requires
        forall|i: int| 0 <= i < b.len() ==> #[trigger] b[i] < 128,
    ensures
        valid_utf8(b),
    decreases b.len(),
{
    if b.len() > 0 {
        let t = b.subrange(1, b.len() as int);
        assert forall|i: int| 0 <= i < t.len() implies #[trigger] t[i] < 128 by {
            assert(t[i] == b[i + 1]);
        }
        lemma_ascii_valid(t);
        assert(pop_first_scalar(b) =~= t);
    }
}

/// A string holding ASCII bytes.
pub fn ascii_string(b: &[u8]) -> (r: String)
    requires
        forall|i: int| 0 <= i < b@.len() ==> #[trigger] b@[i] < 128,
    ensures
        utf8_of(r@) == b@,
{
    proof {
        lemma_ascii_valid(b@);
    }
    match utf8_string(b) {
        Some(s) => s,
        None => String::new(),
    }
}

/// Relies on `std::str::from_utf8`: it succeeds exactly on well-formed UTF-8,
/// and the string it gives holds those bytes.
#[verifier::external_body]
pub(crate) fn utf8_string(b: &[u8]) -> (r: Option<String>)
    ensures
        r is Some <==> valid_utf8(b@),
        r matches Some(s) ==> utf8_of(s@) == b@,
{
    match std::str::from_utf8(b) {
        Ok(s) => Some(s.to_string()),
        Err(_) => None,
    }
}

/// The UTF-8 bytes of a string.
pub fn str_bytes(s: &str) -> (r: &[u8])
    ensures
        r@ == utf8_of(s@),
{
    s.as_bytes()
}

/// The UTF-8 bytes of an owned string.
pub fn string_bytes(s: &String) -> (r: &[u8])
    ensures
        r@ == utf8_of(s@),
{
    s.as_str().as_bytes()
}

/// A string holding a copy of `b[a..e]`, when those bytes are UTF-8.
pub fn string_of_range(b: &[u8], a: usize, e: usize) -> (r: Option<String>)
    requires
        a <= e <= b@.len(),
    ensures
        r is Some <==> valid_utf8(b@.subrange(a as int, e as int)),
        r matches Some(s) ==> utf8_of(s@) == b@.subrange(a as int, e as int),
{
    let piece = crate::bytes::copy_range(b, a, e);
    utf8_string(piece.as_slice())
}

} // verus!
