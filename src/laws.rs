//! Properties that hold across several functions of the library.
use vstd::prelude::*;
use crate::bytes::{eq_ci, find_spec, is_first_match, lemma_find_spec_is, matches_at};
use crate::connection::{next_step_spec, ConnAction, ConnEvent, ConnState};
use crate::head::{head_read_spec, HeadState};
use crate::headers::{
    is_first_named, lemma_name_index_is, lookup, name_index, not_named, removed, same_name,
};
use crate::multipart::crlf2;
use crate::response::{chunk_text, chunked_text, last_chunk_text};
use crate::router::route_key_spec;
use crate::text::{lemma_first_byte_ascii, lemma_utf8_concat, utf8_of};

verus! {

/// A head longer than the limit is refused, whether or not its blank line
/// has arrived, and a refused head closes the connection without an answer.
pub proof fn law_oversized_head_closes(buf: Seq<u8>, max: usize)
    requires
        match find_spec(buf, crlf2(), 0) {
            Some(p) => p > max,
            None => buf.len() > max,
        },
    ensures
        head_read_spec(buf, max) == HeadState::TooLarge,
        next_step_spec(ConnState::ReadingHead, ConnEvent::HeadFailed) == (
            ConnState::Closed,
            ConnAction::Close,
        ),
{
}

proof fn lemma_same_name_swap(x: Seq<char>, a: Seq<char>, b: Seq<char>)
    requires
        eq_ci(utf8_of(a), utf8_of(b)),
    ensures
        same_name(x, a) <==> same_name(x, b),
{
}

/// Header names match whatever their case: two names equal up to ASCII case
/// find the same field, are present or absent together, and remove the same
/// fields.
pub proof fn law_header_names_ignore_case(
    h: Seq<(Seq<char>, Seq<char>)>,
    a: Seq<char>,
    b: Seq<char>,
)
    requires
        eq_ci(utf8_of(a), utf8_of(b)),
    ensures
        name_index(h, a) == name_index(h, b),
        lookup(h, a) == lookup(h, b),
        removed(h, a) == removed(h, b),
{
    assert forall|i: int| is_first_named(h, a, i) <==> is_first_named(h, b, i) by {
        if 0 <= i < h.len() {
            lemma_same_name_swap(h[i].0, a, b);
            assert forall|j: int| 0 <= j < i implies (same_name(#[trigger] h[j].0, a) <==> same_name(
                h[j].0,
                b,
            )) by {
                lemma_same_name_swap(h[j].0, a, b);
            }
        }
    }
    if exists|i: int| is_first_named(h, a, i) {
        let i = choose|i: int| is_first_named(h, a, i);
        lemma_name_index_is(h, a, i);
        lemma_name_index_is(h, b, i);
    }
    assert forall|e: (Seq<char>, Seq<char>)| #[trigger] not_named(a)(e) == not_named(b)(e) by {
        lemma_same_name_swap(e.0, a, b);
    }
    assert(not_named(a) =~= not_named(b));
}

/// The routing key ignores the query string: a URL made of a path without
/// `?`, a `?` and a query routes as the path alone.
pub proof fn law_route_key_ignores_query(method: Seq<char>, path: Seq<char>, query: Seq<char>)
    requires
        forall|i: int| 0 <= i < utf8_of(path).len() ==> #[trigger] utf8_of(path)[i] != 63,
    ensures
        route_key_spec(method, path + seq!['?'] + query) == route_key_spec(method, path),
{
    let p = utf8_of(path);
    lemma_utf8_concat(path + seq!['?'], query);
    lemma_utf8_concat(path, seq!['?']);
    lemma_first_byte_ascii(seq!['?']);
    assert(utf8_of(seq!['?']) =~= seq![63u8]) by {
        assert(seq!['?'].drop_first() =~= Seq::<char>::empty());
        assert(utf8_of(seq!['?'].drop_first()) =~= Seq::<u8>::empty());
    }
    let u = utf8_of(path + seq!['?'] + query);
    assert(u == p + seq![63u8] + utf8_of(query));
    assert forall|j: int| 0 <= j < p.len() implies !matches_at(u, seq![63u8], j) by {
        assert(u.subrange(j, j + 1)[0] == u[j]);
        assert(u[j] == p[j]);
    }
    assert(u.subrange(p.len() as int, p.len() as int + 1) =~= seq![63u8]);
    assert(is_first_match(u, seq![63u8], 0, p.len() as int));
    lemma_find_spec_is(u, seq![63u8], 0, p.len() as int);
    assert(u.subrange(0, p.len() as int) =~= p);
    assert forall|j: int| 0 <= j implies !matches_at(p, seq![63u8], j) by {
        if j < p.len() {
            assert(p.subrange(j, j + 1)[0] == p[j]);
        }
    }
}

/// A chunked body always ends with the last chunk, `0\r\n\r\n`.
pub proof fn law_chunked_body_ends_with_last_chunk(d: Seq<u8>, size: nat)
    ensures
        chunked_text(d, size).len() >= 5,
        chunked_text(d, size).subrange(
            chunked_text(d, size).len() - 5,
            chunked_text(d, size).len() as int,
        ) == last_chunk_text(),
    decreases d.len(),
{
    let t = chunked_text(d, size);
    if d.len() == 0 || size == 0 {
        assert(t.subrange(0, 5) =~= last_chunk_text());
    } else if d.len() <= size {
        assert(t.subrange(t.len() - 5, t.len() as int) =~= last_chunk_text());
    } else {
        let rest = d.subrange(size as int, d.len() as int);
        law_chunked_body_ends_with_last_chunk(rest, size);
        let c = chunk_text(d.subrange(0, size as int));
        let u = chunked_text(rest, size);
        assert(t == c + u);
        assert(t.subrange(t.len() - 5, t.len() as int) =~= u.subrange(u.len() - 5, u.len() as int));
    }
}

} // verus!
