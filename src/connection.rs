//! The life of a connection: read a head, maybe a body, answer, and go on
//! only where the client asked to keep the connection alive and the answer
//! went out. The caller does the I/O and reports what happened.
use vstd::prelude::*;
use crate::body::HasBody;
use crate::bytes::{eq_ci, eq_ignore_case};
use crate::headers::{lookup, HeaderMap};
use crate::text::{str_bytes, utf8_of};

verus! {

/// `keep-alive`
pub open spec fn keep_alive_text() -> Seq<u8> {
    seq![107u8, 101, 101, 112, 45, 97, 108, 105, 118, 101]
}

/// The client asked to keep the connection: `Connection: keep-alive`, in any case.
pub open spec fn keep_alive_spec(h: Seq<(Seq<char>, Seq<char>)>) -> bool {
    match lookup(h, "connection"@) {
        Some(v) => eq_ci(utf8_of(v), keep_alive_text()),
        None => false,
    }
}

/// Whether the client asked to keep the connection.
pub fn is_keep_alive(head_map: &HeaderMap) -> (r: bool)
    ensures
        r == keep_alive_spec(head_map@),
{
    match head_map.get("connection") {
        Some(v) => {
            let k: [u8; 10] = [107, 101, 101, 112, 45, 97, 108, 105, 118, 101];
            assert(k@ =~= keep_alive_text());
            eq_ignore_case(str_bytes(v), k.as_slice())
        },
        None => false,
    }
}

/// Where a connection stands.
pub enum ConnState {
    ReadingHead,
    /// Reading a body; whether to keep the connection afterwards.
    ReadingBody(bool),
    /// Answering; whether to keep the connection afterwards.
    Answering(bool),
    Closed,
}

/// What happened.
pub enum ConnEvent {
    /// The head could not be had: too large, cut short, not UTF-8, or malformed.
    HeadFailed,
    /// A head came, asking to keep the connection or not, with what its
    /// `Content-Length` says.
    HeadRead(bool, HasBody),
    /// The body was read and can be handled, or not (bad or too large).
    BodyRead(bool),
    /// The answer was written, or writing failed.
    Written(bool),
}

/// What to do next.
pub enum ConnAction {
    ReadHead,
    /// Read a body of this many bytes.
    ReadBody(usize),
    /// Route the request and write the answer.
    Answer,
    /// Close the connection without writing anything more.
    Close,
}

/// The next state and action of a connection.
pub open spec fn next_step_spec(s: ConnState, e: ConnEvent) -> (ConnState, ConnAction) {
    match (s, e) {
        (ConnState::ReadingHead, ConnEvent::HeadRead(keep, HasBody::Len(n))) => (
            ConnState::ReadingBody(keep),
            ConnAction::ReadBody(n),
        ),
        (ConnState::ReadingHead, ConnEvent::HeadRead(keep, HasBody::NoLength)) => (
            ConnState::Answering(keep),
            ConnAction::Answer,
        ),
        (ConnState::ReadingBody(keep), ConnEvent::BodyRead(true)) => (
            ConnState::Answering(keep),
            ConnAction::Answer,
        ),
        (ConnState::Answering(true), ConnEvent::Written(true)) => (
            ConnState::ReadingHead,
            ConnAction::ReadHead,
        ),
        _ => (ConnState::Closed, ConnAction::Close),
    }
}

/// Decides the next step of a connection.
pub fn next_step(s: ConnState, e: ConnEvent) -> (r: (ConnState, ConnAction))
    ensures
        r == next_step_spec(s, e),
{
    match (s, e) {
        (ConnState::ReadingHead, ConnEvent::HeadRead(keep, HasBody::Len(n))) => (
            ConnState::ReadingBody(keep),
            ConnAction::ReadBody(n),
        ),
        (ConnState::ReadingHead, ConnEvent::HeadRead(keep, HasBody::NoLength)) => (
            ConnState::Answering(keep),
            ConnAction::Answer,
        ),
        (ConnState::ReadingBody(keep), ConnEvent::BodyRead(true)) => (
            ConnState::Answering(keep),
            ConnAction::Answer,
        ),
        (ConnState::Answering(true), ConnEvent::Written(true)) => (
            ConnState::ReadingHead,
            ConnAction::ReadHead,
        ),
        _ => (ConnState::Closed, ConnAction::Close),
    }
}

} // verus!
