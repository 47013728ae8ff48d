//! Content types by file extension.
use vstd::prelude::*;
use crate::bytes::bytes_equal;

verus! {

/// The content type of a file extension (without its dot); empty where the
/// extension is not known.
pub open spec fn mime_of(e: Seq<u8>) -> Seq<char> {
    if e == seq![104u8, 116, 109, 108] {
        "text/html"@
    } else if e == seq![104u8, 116, 109] {
        "text/html"@
    } else if e == seq![99u8, 115, 115] {
        "text/css"@
    } else if e == seq![106u8, 115] {
        "application/javascript"@
    } else if e == seq![106u8, 115, 111, 110] {
        "application/json"@
    } else if e == seq![116u8, 120, 116] {
        "text/plain"@
    } else if e == seq![120u8, 109, 108] {
        "application/xml"@
    } else if e == seq![112u8, 110, 103] {
        "image/png"@
    } else if e == seq![106u8, 112, 103] {
        "image/jpeg"@
    } else if e == seq![106u8, 112, 101, 103] {
        "image/jpeg"@
    } else if e == seq![103u8, 105, 102] {
        "image/gif"@
    } else if e == seq![115u8, 118, 103] {
        "image/svg+xml"@
    } else if e == seq![105u8, 99, 111] {
        "image/x-icon"@
    } else if e == seq![119u8, 101, 98, 112] {
        "image/webp"@
    } else if e == seq![109u8, 112, 52] {
        "video/mp4"@
    } else if e == seq![109u8, 112, 51] {
        "audio/mpeg"@
    } else if e == seq![119u8, 97, 115, 109] {
        "application/wasm"@
    } else if e == seq![112u8, 100, 102] {
        "application/pdf"@
    } else if e == seq![122u8, 105, 112] {
        "application/zip"@
    } else {
        ""@
    }
}

/// The content type of a file extension, or `""`.
pub fn extension_to_content_type(e: &[u8]) -> (r: &'static str)
    ensures
        r@ == mime_of(e@),
{
    let k: [u8; 4] = [104, 116, 109, 108];
    assert(k@ =~= seq![104u8, 116, 109, 108]);
    if bytes_equal(e, k.as_slice()) {
        return "text/html";
    }
    let k: [u8; 3] = [104, 116, 109];
    assert(k@ =~= seq![104u8, 116, 109]);
    if bytes_equal(e, k.as_slice()) {
        return "text/html";
    }
    let k: [u8; 3] = [99, 115, 115];
    assert(k@ =~= seq![99u8, 115, 115]);
    if bytes_equal(e, k.as_slice()) {
        return "text/css";
    }
    let k: [u8; 2] = [106, 115];
    assert(k@ =~= seq![106u8, 115]);
    if bytes_equal(e, k.as_slice()) {
        return "application/javascript";
    }
    let k: [u8; 4] = [106, 115, 111, 110];
    assert(k@ =~= seq![106u8, 115, 111, 110]);
    if bytes_equal(e, k.as_slice()) {
        return "application/json";
    }
    let k: [u8; 3] = [116, 120, 116];
    assert(k@ =~= seq![116u8, 120, 116]);
    if bytes_equal(e, k.as_slice()) {
        return "text/plain";
    }
    let k: [u8; 3] = [120, 109, 108];
    assert(k@ =~= seq![120u8, 109, 108]);
    if bytes_equal(e, k.as_slice()) {
        return "application/xml";
    }
    let k: [u8; 3] = [112, 110, 103];
    assert(k@ =~= seq![112u8, 110, 103]);
    if bytes_equal(e, k.as_slice()) {
        return "image/png";
    }
    let k: [u8; 3] = [106, 112, 103];
    assert(k@ =~= seq![106u8, 112, 103]);
    if bytes_equal(e, k.as_slice()) {
        return "image/jpeg";
    }
    let k: [u8; 4] = [106, 112, 101, 103];
    assert(k@ =~= seq![106u8, 112, 101, 103]);
    if bytes_equal(e, k.as_slice()) {
        return "image/jpeg";
    }
    let k: [u8; 3] = [103, 105, 102];
    assert(k@ =~= seq![103u8, 105, 102]);
    if bytes_equal(e, k.as_slice()) {
        return "image/gif";
    }
    let k: [u8; 3] = [115, 118, 103];
    assert(k@ =~= seq![115u8, 118, 103]);
    if bytes_equal(e, k.as_slice()) {
        return "image/svg+xml";
    }
    let k: [u8; 3] = [105, 99, 111];
    assert(k@ =~= seq![105u8, 99, 111]);
    if bytes_equal(e, k.as_slice()) {
        return "image/x-icon";
    }
    let k: [u8; 4] = [119, 101, 98, 112];
    assert(k@ =~= seq![119u8, 101, 98, 112]);
    if bytes_equal(e, k.as_slice()) {
        return "image/webp";
    }
    let k: [u8; 3] = [109, 112, 52];
    assert(k@ =~= seq![109u8, 112, 52]);
    if bytes_equal(e, k.as_slice()) {
        return "video/mp4";
    }
    let k: [u8; 3] = [109, 112, 51];
    assert(k@ =~= seq![109u8, 112, 51]);
    if bytes_equal(e, k.as_slice()) {
        return "audio/mpeg";
    }
    let k: [u8; 4] = [119, 97, 115, 109];
    assert(k@ =~= seq![119u8, 97, 115, 109]);
    if bytes_equal(e, k.as_slice()) {
        return "application/wasm";
    }
    let k: [u8; 3] = [112, 100, 102];
    assert(k@ =~= seq![112u8, 100, 102]);
    if bytes_equal(e, k.as_slice()) {
        return "application/pdf";
    }
    let k: [u8; 3] = [122, 105, 112];
    assert(k@ =~= seq![122u8, 105, 112]);
    if bytes_equal(e, k.as_slice()) {
        return "application/zip";
    }
    ""
}

} // verus!
