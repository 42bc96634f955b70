//! Canned responses, and the HTTP-date form of a time.

use vstd::prelude::*;

use crate::http::{fields, Body, Header, Response};
use crate::negotiate::EntityTag;
use crate::text::{decimal, decimal_of};

verus! {

/// The IMF-fixdate (RFC 7231 section 7.1.1.1) of `secs` seconds after the epoch.
pub uninterp spec fn http_date_of(secs: nat) -> Seq<char>;

/// Relies on `hyper::header::HttpDate`'s `Display`: the IMF-fixdate of a time,
/// a function of the time alone.
#[verifier::external_body]
pub(crate) fn http_date(secs: u64) -> (r: String)
    requires
        secs <= u64::MAX / 1000,
    ensures
        r@ == http_date_of(secs as nat),
{
    let t = std::time::UNIX_EPOCH + std::time::Duration::from_secs(secs);
    format!("{}", hyper::header::HttpDate::from(t))
}

/// The wire form of an entity tag: the tag in double quotes, after `W/` if weak.
pub open spec fn etag_wire(weak: bool, tag: Seq<char>) -> Seq<char> {
    if weak {
        seq!['W', '/', '"'] + tag + seq!['"']
    } else {
        seq!['"'] + tag + seq!['"']
    }
}

pub fn etag_header_value(e: &EntityTag) -> (r: String)
    ensures
        r@ == etag_wire(e.weak, e.tag@),
{
    let mut s = if e.weak {
        "W/\"".to_owned()
    } else {
        "\"".to_owned()
    };
    proof {
        reveal_strlit("W/\"");
        reveal_strlit("\"");
    }
    s.append(e.tag.as_str());
    s.append("\"");
    assert(s@ =~= etag_wire(e.weak, e.tag@));
    s
}

/// The `Content-Type` of plain-text bodies.
pub fn plaintext() -> (r: String)
    ensures
        r@ == "text/plain; charset=utf-8"@,
{
    "text/plain; charset=utf-8".to_owned()
}

/// A text body with its type and length.
fn text_response(status: u16, msg: &str) -> (r: Response)
    ensures
        r.status == status,
        r.fields() == seq![
            ("Content-Type"@, "text/plain; charset=utf-8"@),
            ("Content-Length"@, decimal_of(msg.len() as nat)),
        ],
        r.body matches Body::Text(t) && t@ == msg@,
{
    let mut headers: Vec<Header> = Vec::new();
    headers.push(Header::new("Content-Type", plaintext()));
    headers.push(Header::new("Content-Length", decimal(msg.len() as u64)));
    assert(fields(headers@) =~= seq![
        ("Content-Type"@, "text/plain; charset=utf-8"@),
        ("Content-Length"@, decimal_of(msg.len() as nat)),
    ]);
    Response { status, headers, body: Body::Text(msg.to_owned()) }
}

pub fn bad_request(msg: &str) -> (r: Response)
    ensures
        r.status == 400,
        r.fields() == seq![
            ("Content-Type"@, "text/plain; charset=utf-8"@),
            ("Content-Length"@, decimal_of(msg.len() as nat)),
        ],
        r.body matches Body::Text(t) && t@ == msg@,
{
    text_response(400, msg)
}

/// 405, naming the methods that are served.
pub fn method_not_allowed() -> (r: Response)
    ensures
        r.status == 405,
        r.fields() == seq![
            ("Content-Type"@, "text/plain; charset=utf-8"@),
            ("Content-Length"@, decimal_of("Only GET, HEAD, OPTIONS allowed".len() as nat)),
            ("Allow"@, "GET, HEAD, OPTIONS"@),
        ],
        r.body matches Body::Text(t) && t@ == "Only GET, HEAD, OPTIONS allowed"@,
{
    let mut r = text_response(405, "Only GET, HEAD, OPTIONS allowed");
    let ghost before = r.headers@;
    r.headers.push(Header::new("Allow", "GET, HEAD, OPTIONS".to_owned()));
    assert(fields(r.headers@) =~= fields(before).push(("Allow"@, "GET, HEAD, OPTIONS"@)));
    r
}

pub fn not_found() -> (r: Response)
    ensures
        r.status == 404,
        r.fields() == seq![
            ("Content-Type"@, "text/plain; charset=utf-8"@),
            ("Content-Length"@, decimal_of("Not found".len() as nat)),
        ],
        r.body matches Body::Text(t) && t@ == "Not found"@,
{
    text_response(404, "Not found")
}

pub fn internal_server_error() -> (r: Response)
    ensures
        r.status == 500,
        r.fields() == seq![
            ("Content-Type"@, "text/plain; charset=utf-8"@),
            ("Content-Length"@, decimal_of("Internal server error".len() as nat)),
        ],
        r.body matches Body::Text(t) && t@ == "Internal server error"@,
{
    text_response(500, "Internal server error")
}

/// 504: the upstream server did not answer within the connect timeout.
pub fn gateway_timeout() -> (r: Response)
    ensures
        r.status == 504,
        r.fields() == seq![
            ("Content-Type"@, "text/plain; charset=utf-8"@),
            ("Content-Length"@, decimal_of("Gateway timeout".len() as nat)),
        ],
        r.body matches Body::Text(t) && t@ == "Gateway timeout"@,
{
    text_response(504, "Gateway timeout")
}

pub fn precondition_failed() -> (r: Response)
    ensures
        r.status == 412,
        r.fields() == seq![
            ("Content-Type"@, "text/plain; charset=utf-8"@),
            ("Content-Length"@, decimal_of(0)),
        ],
        r.body is Empty,
{
    let mut headers: Vec<Header> = Vec::new();
    headers.push(Header::new("Content-Type", plaintext()));
    headers.push(Header::new("Content-Length", decimal(0)));
    assert(fields(headers@) =~= seq![
        ("Content-Type"@, "text/plain; charset=utf-8"@),
        ("Content-Length"@, decimal_of(0)),
    ]);
    Response { status: 412, headers, body: Body::Empty }
}

/// 304, carrying the entity tag as a 304 must.
pub fn not_modified(etag: &EntityTag) -> (r: Response)
    ensures
        r.status == 304,
        r.fields() == seq![
            ("ETag"@, etag_wire(etag.weak, etag.tag@)),
            ("Content-Type"@, "text/plain; charset=utf-8"@),
            ("Content-Length"@, decimal_of(0)),
        ],
        r.body is Empty,
{
    let mut headers: Vec<Header> = Vec::new();
    headers.push(Header::new("ETag", etag_header_value(etag)));
    headers.push(Header::new("Content-Type", plaintext()));
    headers.push(Header::new("Content-Length", decimal(0)));
    assert(fields(headers@) =~= seq![
        ("ETag"@, etag_wire(etag.weak, etag.tag@)),
        ("Content-Type"@, "text/plain; charset=utf-8"@),
        ("Content-Length"@, decimal_of(0)),
    ]);
    Response { status: 304, headers, body: Body::Empty }
}

/// `bytes */len`.
pub open spec fn unsatisfied_range(len: nat) -> Seq<char> {
    seq!['b', 'y', 't', 'e', 's', ' ', '*', '/'] + decimal_of(len)
}

/// 416, stating the entity length in `Content-Range`.
pub fn invalid_range(entity_len: u64) -> (r: Response)
    ensures
        r.status == 416,
        r.fields() == seq![
            ("Content-Type"@, "text/plain; charset=utf-8"@),
            ("Content-Length"@, decimal_of("Invalid range".len() as nat)),
            ("Content-Range"@, unsatisfied_range(entity_len as nat)),
        ],
        r.body matches Body::Text(t) && t@ == "Invalid range"@,
{
    let mut r = text_response(416, "Invalid range");
    let mut range = "bytes */".to_owned();
    proof {
        reveal_strlit("bytes */");
    }
    range.append(decimal(entity_len).as_str());
    assert(range@ =~= unsatisfied_range(entity_len as nat));
    let ghost before = r.headers@;
    r.headers.push(Header::new("Content-Range", range));
    assert(fields(r.headers@) =~= fields(before).push(("Content-Range"@, unsatisfied_range(entity_len as nat))));
    r
}

} // verus!
