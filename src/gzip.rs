//! The compression stage: when a response is gzipped, and how its head changes.

use std::io::Write;

use vstd::prelude::*;

use crate::codec::{numeral_value, Codec};
use crate::http::{
    field, fields, get_header, lemma_field_after_remove, lemma_field_after_set, lemma_same_name_sym,
    lower_char,
    remove_header, same_name, set_header, Method, Response,
};
use crate::mime::{compressible_type, is_mime_compressible};
use crate::negotiate::{negotiate_encoding, picks_gzip, Coding, QualityItem};
use crate::proxy::ends_with;
use crate::text::decimal_digits;
use crate::util::{append_header_vary, vary_fields};

verus! {

/// Compression settings of a site.
pub struct GzipConfig {
    /// Bodies known to be shorter than this are sent as they are.
    pub threshold: u64,
}

pub fn default_gzip_threshold() -> (r: u64)
    ensures
        r == 1400,
{
    1400
}

/// The gzip level: 1 trades ratio for speed.
pub fn default_gzip_level() -> (r: u32)
    ensures
        r == 1,
{
    1
}

/// The gzip member (RFC 1952) that flate2's `GzEncoder`, with its default header,
/// writes for `data` at compression level `level`.
pub uninterp spec fn gzip_member(data: Seq<u8>, level: nat) -> Seq<u8>;

/// Relies on `flate2::write::GzEncoder`: `data` written into an encoder over a
/// `Vec` at `level`, then `finish`; the bytes depend on the data and level alone.
/// Writing into a `Vec` does not fail, and levels up to 9 are valid parameters.
#[verifier::external_body]
fn gzip_at_level(data: &[u8], level: u32) -> (r: Option<Vec<u8>>)
    requires
        level <= 9,
    ensures
        r.is_some(),
        r.unwrap()@ == gzip_member(data@, level as nat),
{
    let mut encoder = flate2::write::GzEncoder::new(Vec::new(), flate2::Compression::new(level));
    encoder.write_all(data).and_then(|_| encoder.finish()).ok()
}

/// One chunk of a compressed body: the chunk alone as a complete gzip member at
/// level 1, so that it can be sent as soon as it is ready.
pub fn gzip_chunk(chunk: &[u8]) -> (r: Vec<u8>)
    ensures
        r@ == gzip_member(chunk@, 1),
{
    let packed = gzip_at_level(chunk, default_gzip_level());
    packed.unwrap()
}

/// Only GET and HEAD responses are compressed.
pub fn compresses_method(method: &Method) -> (r: bool)
    ensures
        r == (*method == Method::Get || *method == Method::Head),
{
    *method == Method::Get || *method == Method::Head
}

/// The number a non-empty run of decimal digits stands for.
pub open spec fn decimal_value(s: Seq<char>) -> Option<nat> {
    if s.len() == 0 {
        None
    } else {
        numeral_value(decimal_digits(), s)
    }
}

/// The number `s` spells in decimal; `None` where it is empty, holds another
/// character, or exceeds `u64::MAX`.
pub fn parse_decimal(s: &str) -> (r: Option<u64>)
    ensures
        r == (match decimal_value(s@) {
            Some(v) => if v <= u64::MAX {
                Some(v as u64)
            } else {
                None
            },
            None => None,
        }),
{
    if s.is_empty() {
        return None;
    }
    let digits: [char; 10] = ['0', '1', '2', '3', '4', '5', '6', '7', '8', '9'];
    assert(digits@ =~= decimal_digits());
    Codec::new(&digits).decode(s)
}

/// A body whose declared length is missing or unreadable counts as long enough.
pub open spec fn over_threshold(content_length: Option<Seq<char>>, threshold: u64) -> bool {
    match content_length {
        None => true,
        Some(v) => match decimal_value(v) {
            Some(n) => n > u64::MAX || n >= threshold,
            None => true,
        },
    }
}

/// The response is to be gzipped: a 2xx whose content type is compressible,
/// not known to be under the threshold, for a client that prefers gzip.
pub open spec fn should_compress_spec(res: &Response, threshold: u64, accept: Option<&Vec<QualityItem>>) -> bool {
    &&& 200 <= res.status <= 299
    &&& res.field("Content-Type"@) matches Some(ct) && compressible_type(ct)
    &&& over_threshold(res.field("Content-Length"@), threshold)
    &&& accept matches Some(items) && picks_gzip(items@)
}

/// `accept` is the request's `Accept-Encoding`, if any.
pub fn should_compress(res: &Response, threshold: u64, accept: Option<&Vec<QualityItem>>) -> (r: bool)
    ensures
        r == should_compress_spec(res, threshold, accept),
{
    if !(200 <= res.status && res.status <= 299) {
        return false;
    }
    let compressible = match get_header(&res.headers, "Content-Type") {
        None => false,
        Some(ct) => is_mime_compressible(ct.as_str()),
    };
    if !compressible {
        return false;
    }
    let over = match get_header(&res.headers, "Content-Length") {
        None => true,
        Some(v) => match parse_decimal(v.as_str()) {
            Some(n) => n >= threshold,
            None => true,
        },
    };
    over && negotiate_encoding(accept) == Some(Coding::Gzip)
}

/// The weak form of an entity tag's wire form.
pub open spec fn weakened(v: Seq<char>) -> Seq<char> {
    if is_weak_wire(v) {
        v
    } else {
        seq!['W', '/'] + v
    }
}

/// The wire form of a weak entity tag begins with `W/`.
pub open spec fn is_weak_wire(v: Seq<char>) -> bool {
    v.len() >= 2 && v[0] == 'W' && v[1] == '/'
}

fn weaken(v: String) -> (r: String)
    ensures
        r@ == weakened(v@),
{
    let c = crate::text::chars_of(v.as_str());
    if c.len() >= 2 && c[0] == 'W' && c[1] == '/' {
        return v;
    }
    let mut w = "W/".to_owned();
    proof {
        reveal_strlit("W/");
    }
    w.append(v.as_str());
    assert(w@ =~= weakened(v@));
    w
}

proof fn lemma_gzip_names_distinct()
    ensures
        !same_name("ETag"@, "Vary"@),
        !same_name("Vary"@, "ETag"@),
        !same_name("ETag"@, "Content-Encoding"@),
        !same_name("ETag"@, "Transfer-Encoding"@),
        !same_name("ETag"@, "Content-Length"@),
        !same_name("Vary"@, "Content-Encoding"@),
        !same_name("Vary"@, "Transfer-Encoding"@),
        !same_name("Vary"@, "Content-Length"@),
        !same_name("Content-Encoding"@, "Transfer-Encoding"@),
        !same_name("Content-Encoding"@, "Content-Length"@),
        !same_name("Transfer-Encoding"@, "Content-Length"@),
        !same_name("Content-Encoding"@, "ETag"@),
        !same_name("Transfer-Encoding"@, "ETag"@),
        !same_name("Content-Encoding"@, "Vary"@),
        !same_name("Transfer-Encoding"@, "Vary"@),
        !same_name("Content-Length"@, "ETag"@),
        !same_name("Content-Length"@, "Vary"@),
        !same_name("Transfer-Encoding"@, "Content-Encoding"@),
        same_name("Content-Length"@, "Content-Length"@),
{
    reveal_strlit("ETag");
    reveal_strlit("Vary");
    reveal_strlit("Content-Encoding");
    reveal_strlit("Transfer-Encoding");
    reveal_strlit("Content-Length");
    assert(lower_char("ETag"@[0]) != lower_char("Vary"@[0]));
}

/// The fields that compression rewrites.
pub open spec fn rewritten_name(m: Seq<char>) -> bool {
    same_name(m, "ETag"@) || same_name(m, "Vary"@) || same_name(m, "Content-Encoding"@) || same_name(
        m,
        "Transfer-Encoding"@,
    ) || same_name(m, "Content-Length"@)
}

/// Rewrites the head of a response whose body is about to be gzipped chunk by
/// chunk: no `Content-Length`, chunked transfer, `Content-Encoding: gzip`,
/// `Accept-Encoding` added to `Vary`, and a strong entity tag made weak.
pub fn compress_response(res: &mut Response)
    ensures
        final(res).status == old(res).status,
        final(res).body == old(res).body,
        final(res).field("Content-Length"@).is_none(),
        final(res).field("Transfer-Encoding"@) == Some("chunked"@),
        final(res).field("Content-Encoding"@) == Some("gzip"@),
        final(res).field("Vary"@) == field(vary_fields(old(res).fields(), "Accept-Encoding"@), "Vary"@),
        final(res).field("ETag"@) == (match old(res).field("ETag"@) {
            Some(v) => Some(weakened(v)),
            None => None,
        }),
        final(res).field("ETag"@) matches Some(e) ==> is_weak_wire(e),
        final(res).field("Vary"@) matches Some(v) && (v == "*"@ || ends_with(v, "Accept-Encoding"@)),
        forall|m: Seq<char>|
            !rewritten_name(m) ==> #[trigger] final(res).field(m) == old(res).field(m),
{
    let ghost h0 = old(res).fields();
    proof {
        lemma_gzip_names_distinct();
    }
    // A gzipped body may differ byte for byte with the level: the tag becomes weak.
    match get_header(&res.headers, "ETag") {
        Some(v) => {
            let w = weaken(v);
            set_header(&mut res.headers, "ETag", w);
        },
        None => {},
    }
    let ghost h1 = res.fields();
    proof {
        if field(h0, "ETag"@).is_some() {
            lemma_field_after_set(h0, "ETag"@, weakened(field(h0, "ETag"@).unwrap()), "ETag"@);
            lemma_field_after_set(h0, "ETag"@, weakened(field(h0, "ETag"@).unwrap()), "Vary"@);
        }
    }
    append_header_vary(&mut res.headers, "Accept-Encoding");
    let ghost h2 = res.fields();
    proof {
        lemma_vary_keeps(h1, "ETag"@);
        lemma_vary_keeps(h0, "ETag"@);
        if field(h0, "ETag"@).is_some() {
            assert(field(h1, "Vary"@) == field(h0, "Vary"@));
        } else {
            assert(h1 == h0);
        }
        lemma_vary_field(h1);
        lemma_vary_field(h0);
    }
    set_header(&mut res.headers, "Content-Encoding", "gzip".to_owned());
    let ghost h3 = res.fields();
    proof {
        lemma_field_after_set(h2, "Content-Encoding"@, "gzip"@, "ETag"@);
        lemma_field_after_set(h2, "Content-Encoding"@, "gzip"@, "Vary"@);
        lemma_field_after_set(h2, "Content-Encoding"@, "gzip"@, "Content-Encoding"@);
    }
    set_header(&mut res.headers, "Transfer-Encoding", "chunked".to_owned());
    let ghost h4 = res.fields();
    proof {
        lemma_field_after_set(h3, "Transfer-Encoding"@, "chunked"@, "ETag"@);
        lemma_field_after_set(h3, "Transfer-Encoding"@, "chunked"@, "Vary"@);
        lemma_field_after_set(h3, "Transfer-Encoding"@, "chunked"@, "Content-Encoding"@);
        lemma_field_after_set(h3, "Transfer-Encoding"@, "chunked"@, "Transfer-Encoding"@);
    }
    remove_header(&mut res.headers, "Content-Length");
    proof {
        lemma_field_after_remove(h4, "Content-Length"@, "ETag"@);
        lemma_field_after_remove(h4, "Content-Length"@, "Vary"@);
        lemma_field_after_remove(h4, "Content-Length"@, "Content-Encoding"@);
        lemma_field_after_remove(h4, "Content-Length"@, "Transfer-Encoding"@);
        lemma_field_after_remove(h4, "Content-Length"@, "Content-Length"@);
        if field(h0, "ETag"@).is_some() {
            let v = field(h0, "ETag"@).unwrap();
            assert(is_weak_wire(weakened(v)));
        }
        assert forall|m: Seq<char>| !rewritten_name(m) implies #[trigger] field(res.fields(), m) == field(
            h0,
            m,
        ) by {
            lemma_same_name_sym(m, "ETag"@);
            lemma_same_name_sym(m, "Vary"@);
            lemma_same_name_sym(m, "Content-Encoding"@);
            lemma_same_name_sym(m, "Transfer-Encoding"@);
            lemma_same_name_sym(m, "Content-Length"@);
            if field(h0, "ETag"@).is_some() {
                lemma_field_after_set(h0, "ETag"@, weakened(field(h0, "ETag"@).unwrap()), m);
            }
            lemma_vary_keeps(h1, m);
            lemma_field_after_set(h2, "Content-Encoding"@, "gzip"@, m);
            lemma_field_after_set(h3, "Transfer-Encoding"@, "chunked"@, m);
            lemma_field_after_remove(h4, "Content-Length"@, m);
        }
    }
}

/// Adding to `Vary` leaves the lookup of another name as it was.
proof fn lemma_vary_keeps(hs: Seq<(Seq<char>, Seq<char>)>, m: Seq<char>)
    requires
        !same_name("Vary"@, m),
    ensures
        field(vary_fields(hs, "Accept-Encoding"@), m) == field(hs, m),
{
    match field(hs, "Vary"@) {
        Some(v) => {
            if v != "*"@ {
                lemma_field_after_set(hs, "Vary"@, v + seq![',', ' '] + "Accept-Encoding"@, m);
            }
        },
        None => {
            lemma_field_after_set(hs, "Vary"@, "Accept-Encoding"@, m);
        },
    }
}

/// After adding to `Vary`, the field is `*` or ends with what was added.
proof fn lemma_vary_field(hs: Seq<(Seq<char>, Seq<char>)>)
    ensures
        field(vary_fields(hs, "Accept-Encoding"@), "Vary"@) matches Some(v) && (v == "*"@ || ends_with(
            v,
            "Accept-Encoding"@,
        )),
        field(vary_fields(hs, "Accept-Encoding"@), "Vary"@) == (match field(hs, "Vary"@) {
            Some(v) => if v == "*"@ {
                Some(v)
            } else {
                Some(v + seq![',', ' '] + "Accept-Encoding"@)
            },
            None => Some("Accept-Encoding"@),
        }),
{
    crate::http::lemma_same_name_refl("Vary"@);
    match field(hs, "Vary"@) {
        Some(v) => {
            if v != "*"@ {
                let nv = v + seq![',', ' '] + "Accept-Encoding"@;
                lemma_field_after_set(hs, "Vary"@, nv, "Vary"@);
                assert(nv.subrange(nv.len() - "Accept-Encoding"@.len(), nv.len() as int) =~= "Accept-Encoding"@);
            }
        },
        None => {
            lemma_field_after_set(hs, "Vary"@, "Accept-Encoding"@, "Vary"@);
            assert("Accept-Encoding"@.subrange(0, "Accept-Encoding"@.len() as int) =~= "Accept-Encoding"@);
        },
    }
}

} // verus!
