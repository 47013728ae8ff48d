//! The fixed tables of the protocol: status lines and request methods.
use vstd::prelude::*;

verus! {

pub const GET: u8 = 0;
pub const POST: u8 = 1;
pub const OPTIONS: u8 = 2;
pub const DELETE: u8 = 3;
pub const HEAD: u8 = 4;
pub const PUT: u8 = 5;
pub const PATCH: u8 = 6;
pub const CONNECT: u8 = 7;
pub const TRACE: u8 = 8;

/// The status codes that have a reason phrase.
pub open spec fn is_known_status(code: u16) -> bool {
    code == 101 || code == 200 || code == 201 || code == 202 || code == 204 || code == 206
        || code == 300 || code == 301 || code == 302 || code == 304 || code == 400 || code == 401
        || code == 403 || code == 404 || code == 413 || code == 416 || code == 500 || code == 501
        || code == 502 || code == 503
}

/// The text that follows the version on a status line, line break included.
pub open spec fn status_text(code: u16) -> Seq<char> {
    if code == 101 {
        "101 Switching Protocals\r\n"@
    } else if code == 200 {
        "200 OK\r\n"@
    } else if code == 201 {
        "201 Created\r\n"@
    } else if code == 202 {
        "202 Accepted\r\n"@
    } else if code == 204 {
        "204 No Content\r\n"@
    } else if code == 206 {
        "206 Partial Content\r\n"@
    } else if code == 300 {
        "300 Multiple Choices\r\n"@
    } else if code == 301 {
        "301 Moved Permanently\r\n"@
    } else if code == 302 {
        "302 Moved Temporarily\r\n"@
    } else if code == 304 {
        "304 Not Modified\r\n"@
    } else if code == 400 {
        "400 Bad Request\r\n"@
    } else if code == 401 {
        "401 Unauthorized\r\n"@
    } else if code == 403 {
        "403 Forbidden\r\n"@
    } else if code == 404 {
        "404 Not Found\r\n"@
    } else if code == 413 {
        "413 Request Entity Too Large\r\n"@
    } else if code == 416 {
        "416 Requested Range Not Satisfiable\r\n"@
    } else if code == 500 {
        "500 Internal Server Error\r\n"@
    } else if code == 501 {
        "501 Not Implemented\r\n"@
    } else if code == 502 {
        "502 Bad Gateway\r\n"@
    } else {
        "503 Service Unavailable\r\n"@
    }
}

/// Whether a status code has a reason phrase.
pub fn known_status(code: u16) -> (r: bool)
    ensures
        r == is_known_status(code),
{
    code == 101 || code == 200 || code == 201 || code == 202 || code == 204 || code == 206
        || code == 300 || code == 301 || code == 302 || code == 304 || code == 400 || code == 401
        || code == 403 || code == 404 || code == 413 || code == 416 || code == 500 || code == 501
        || code == 502 || code == 503
}

/// The status text of a known code; an unknown code is a programming error.
pub fn get_httpstatus_from_code(code: u16) -> (r: &'static str)
    requires
        is_known_status(code),
    ensures
        r@ == status_text(code),
{
    match code {
        101 => "101 Switching Protocals\r\n",
        200 => "200 OK\r\n",
        201 => "201 Created\r\n",
        202 => "202 Accepted\r\n",
        204 => "204 No Content\r\n",
        206 => "206 Partial Content\r\n",
        300 => "300 Multiple Choices\r\n",
        301 => "301 Moved Permanently\r\n",
        302 => "302 Moved Temporarily\r\n",
        304 => "304 Not Modified\r\n",
        400 => "400 Bad Request\r\n",
        401 => "401 Unauthorized\r\n",
        403 => "403 Forbidden\r\n",
        404 => "404 Not Found\r\n",
        413 => "413 Request Entity Too Large\r\n",
        416 => "416 Requested Range Not Satisfiable\r\n",
        500 => "500 Internal Server Error\r\n",
        501 => "501 Not Implemented\r\n",
        502 => "502 Bad Gateway\r\n",
        _ => "503 Service Unavailable\r\n",
    }
}

/// The name of a request method by its code.
pub open spec fn method_name(code: u8) -> Seq<char> {
    if code == GET {
        "GET"@
    } else if code == POST {
        "POST"@
    } else if code == OPTIONS {
        "OPTIONS"@
    } else if code == DELETE {
        "DELETE"@
    } else if code == HEAD {
        "HEAD"@
    } else if code == PUT {
        "PUT"@
    } else if code == PATCH {
        "PATCH"@
    } else if code == CONNECT {
        "CONNECT"@
    } else {
        "TRACE"@
    }
}

/// The name of a request method; a code past `TRACE` is a programming error.
pub fn get_httpmethod_from_code(code: u8) -> (r: &'static str)
    requires
        code <= TRACE,
    ensures
        r@ == method_name(code),
{
    match code {
        0 => "GET",
        1 => "POST",
        2 => "OPTIONS",
        3 => "DELETE",
        4 => "HEAD",
        5 => "PUT",
        6 => "PATCH",
        7 => "CONNECT",
        _ => "TRACE",
    }
}

/// The names of a list of method codes, in order.
pub fn method_names(codes: &[u8]) -> (r: Vec<&'static str>)
    requires
        forall|i: int| 0 <= i < codes@.len() ==> #[trigger] codes@[i] <= TRACE,
    ensures
        r@.len() == codes@.len(),
        forall|i: int| 0 <= i < codes@.len() ==> (#[trigger] r@[i])@ == method_name(codes@[i]),
{
    let mut r: Vec<&'static str> = Vec::new();
    let mut i: usize = 0;
    while i < codes.len()
        invariant
            0 <= i <= codes@.len(),
            r@.len() == i,
            forall|k: int| 0 <= k < codes@.len() ==> #[trigger] codes@[k] <= TRACE,
            forall|k: int| 0 <= k < i ==> (#[trigger] r@[k])@ == method_name(codes@[k]),
        decreases codes@.len() - i,
    {
        r.push(get_httpmethod_from_code(codes[i]));
        i = i + 1;
    }
    r
}

} // verus!
