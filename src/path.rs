//! Mapping a request path to a file under a site's root.

use vstd::prelude::*;
use vstd::string::StringSliceAdditionalSpecFns;
use vstd::utf8::{decode_utf8, encode_utf8, encode_utf8_decode_utf8, encode_utf8_valid_utf8, valid_utf8};

use crate::text::{chars_of, string_of};

verus! {

/// The value of an ASCII hexadecimal digit.
pub open spec fn hex_value(b: u8) -> Option<u8> {
    if 48 <= b && b <= 57 {
        Some((b - 48) as u8)
    } else if 97 <= b && b <= 102 {
        Some((b - 87) as u8)
    } else if 65 <= b && b <= 70 {
        Some((b - 55) as u8)
    } else {
        None
    }
}

/// Bytes with each `%` that two hexadecimal digits follow replaced by the byte
/// they spell; every other byte, a lone `%` included, stays as it is.
pub open spec fn percent_decoded(b: Seq<u8>) -> Seq<u8>
    decreases b.len(),
{
    if b.len() == 0 {
        b
    } else if b[0] == 37 && b.len() >= 3 && hex_value(b[1]).is_some() && hex_value(b[2]).is_some() {
        seq![(hex_value(b[1]).unwrap() * 16 + hex_value(b[2]).unwrap()) as u8] + percent_decoded(
            b.subrange(3, b.len() as int),
        )
    } else {
        seq![b[0]] + percent_decoded(b.drop_first())
    }
}

/// The upper-case hexadecimal digit for `n < 16`.
pub open spec fn hex_digit(n: u8) -> u8 {
    if n < 10 {
        (48 + n) as u8
    } else {
        (55 + n) as u8
    }
}

/// `b` percent-encoded by an encode set: each byte for which `escape` holds
/// becomes `%` and two upper-case hexadecimal digits, every other byte stays.
pub open spec fn percent_encoded_by(b: Seq<u8>, escape: spec_fn(u8) -> bool) -> Seq<u8>
    decreases b.len(),
{
    if b.len() == 0 {
        b
    } else if !escape(b[0]) {
        seq![b[0]] + percent_encoded_by(b.drop_first(), escape)
    } else {
        seq![37u8, hex_digit(b[0] / 16), hex_digit(b[0] % 16)] + percent_encoded_by(b.drop_first(), escape)
    }
}

/// Percent-decoding undoes percent-encoding by any encode set, for every byte
/// string in which each `%` is escaped.
pub proof fn lemma_percent_round_trip(b: Seq<u8>, escape: spec_fn(u8) -> bool)
    requires
        forall|i: int| 0 <= i < b.len() && b[i] == 37 ==> escape(b[i]),
    ensures
        percent_decoded(percent_encoded_by(b, escape)) == b,
    decreases b.len(),
{
    if b.len() > 0 {
        assert forall|i: int| 0 <= i < b.drop_first().len() && b.drop_first()[i] == 37 implies escape(
            b.drop_first()[i],
        ) by {
            assert(b.drop_first()[i] == b[i + 1]);
        }
        lemma_percent_round_trip(b.drop_first(), escape);
        let e = percent_encoded_by(b, escape);
        let rest = percent_encoded_by(b.drop_first(), escape);
        if !escape(b[0]) {
            assert(e.drop_first() =~= rest);
            assert(e[0] == b[0]);
        } else {
            let hi = b[0] / 16;
            let lo = b[0] % 16;
            assert(e.subrange(3, e.len() as int) =~= rest);
            assert(hex_value(hex_digit(hi)) == Some(hi));
            assert(hex_value(hex_digit(lo)) == Some(lo));
            assert(hi * 16 + lo == b[0]);
        }
        assert(b =~= seq![b[0]] + b.drop_first());
    }
}

/// For every path `p` whose UTF-8 form has each `%` escaped by the encode set,
/// decoding its percent-encoded form as UTF-8 gives `p` back.
pub proof fn lemma_percent_path_round_trip(p: Seq<char>, escape: spec_fn(u8) -> bool)
    requires
        forall|i: int| 0 <= i < encode_utf8(p).len() && encode_utf8(p)[i] == 37 ==> escape(encode_utf8(p)[i]),
    ensures
        valid_utf8(percent_decoded(percent_encoded_by(encode_utf8(p), escape))),
        decode_utf8(percent_decoded(percent_encoded_by(encode_utf8(p), escape))) == p,
{
    lemma_percent_round_trip(encode_utf8(p), escape);
    encode_utf8_valid_utf8(p);
    encode_utf8_decode_utf8(p);
}

/// The percent-decoded form of `s`, read as UTF-8; `None` where it is not UTF-8.
pub fn percent_decode(s: &str) -> (r: Option<String>)
    ensures
        r.is_some() == valid_utf8(percent_decoded(s.spec_bytes())),
        r.is_some() ==> r.unwrap()@ == decode_utf8(percent_decoded(s.spec_bytes())),
{
    percent_decode_str(s)
}

/// The request path decodes as UTF-8 to a path that could climb: a client asking
/// for it is answered 404 whatever the site.
pub open spec fn climbs(req_bytes: Seq<u8>) -> bool {
    valid_utf8(percent_decoded(req_bytes)) && !safe_path(decode_utf8(percent_decoded(req_bytes)))
}

/// A path that could climb names no file under any root: the static-file and
/// listing stages answer it 404 (`plan_request`, `plan_browse`), and so does
/// the proxy stage (`plan_proxy`), whatever the site.
pub proof fn lemma_climbing_path_names_no_file(root: Seq<char>, req: Seq<char>, req_bytes: Seq<u8>)
    requires
        climbs(req_bytes),
    ensures
        entity_path_of(root, req, req_bytes).is_none(),
{
}

pub fn path_climbs(req_path: &str) -> (r: bool)
    ensures
        r == climbs(req_path.spec_bytes()),
{
    match percent_decode_str(req_path) {
        None => false,
        Some(d) => !is_safe_path(d.as_str()),
    }
}

/// Relies on `percent_encoding::percent_decode` and `PercentDecode::decode_utf8`:
/// the percent-decoded bytes of `s`, read as UTF-8.
#[verifier::external_body]
fn percent_decode_str(s: &str) -> (r: Option<String>)
    ensures
        r.is_some() == valid_utf8(percent_decoded(s.spec_bytes())),
        r.is_some() ==> r.unwrap()@ == decode_utf8(percent_decoded(s.spec_bytes())),
{
    percent_encoding::percent_decode(s.as_bytes()).decode_utf8().ok().map(|c| c.into_owned())
}

/// Positions `i..j` of `p` hold a whole `.` or `..` segment.
pub open spec fn is_dot_segment(p: Seq<char>, i: int, j: int) -> bool {
    0 <= i <= j <= p.len() && (i == 0 || p[i - 1] == '/') && (j == p.len() || p[j] == '/') && ((
    j == i + 1 && p[i] == '.') || (j == i + 2 && p[i] == '.' && p[i + 1] == '.'))
}

/// No segment of `p` (between slashes) is `.` or `..`: the path cannot climb.
pub open spec fn safe_path(p: Seq<char>) -> bool {
    forall|i: int, j: int| !#[trigger] is_dot_segment(p, i, j)
}

/// Whether every segment of `path` is a root or a normal name.
pub fn is_safe_path(path: &str) -> (r: bool)
    ensures
        r == safe_path(path@),
{
    let p = chars_of(path);
    let n = p.len();
    let mut i: usize = 0;
    while i < n
        invariant
            p@ == path@,
            n == p@.len(),
            i <= n,
            forall|a: int, j: int| 0 <= a < i ==> !#[trigger] is_dot_segment(p@, a, j),
        decreases n - i,
    {
        if (i == 0 || p[i - 1] == '/') && p[i] == '.' {
            if i + 1 == n || p[i + 1] == '/' {
                assert(is_dot_segment(p@, i as int, i + 1));
                return false;
            }
            if p[i + 1] == '.' && (i + 2 == n || p[i + 2] == '/') {
                assert(is_dot_segment(p@, i as int, i + 2));
                return false;
            }
        }
        i += 1;
    }
    assert forall|a: int, j: int| !#[trigger] is_dot_segment(p@, a, j) by {
        if is_dot_segment(p@, a, j) {
            assert(0 <= a < n);
        }
    }
    true
}

/// `p` without its leading slashes.
pub open spec fn without_leading_slashes(p: Seq<char>) -> Seq<char>
    decreases p.len(),
{
    if p.len() > 0 && p[0] == '/' {
        without_leading_slashes(p.drop_first())
    } else {
        p
    }
}

/// `rel` placed under `root`, with one separator between them.
pub open spec fn join_under(root: Seq<char>, rel: Seq<char>) -> Seq<char> {
    if rel.len() == 0 {
        root
    } else if root.len() > 0 && root.last() == '/' {
        root + rel
    } else {
        root + seq!['/'] + rel
    }
}

/// The file that request path `req` names under `root`: `None` where `req` is
/// not absolute, does not decode as UTF-8 or could climb out of `root`.
pub open spec fn entity_path_of(root: Seq<char>, req: Seq<char>, req_bytes: Seq<u8>) -> Option<
    Seq<char>,
> {
    if req.len() == 0 || req[0] != '/' || !valid_utf8(percent_decoded(req_bytes)) {
        None
    } else {
        let decoded = decode_utf8(percent_decoded(req_bytes));
        if !safe_path(decoded) {
            None
        } else {
            Some(join_under(root, without_leading_slashes(decoded)))
        }
    }
}

/// `p` extends `root` by a tail that is empty, or a relative path whose segments are
/// all normal names, set off from `root` by a slash.
pub open spec fn lies_under(root: Seq<char>, p: Seq<char>) -> bool {
    &&& root.len() <= p.len()
    &&& p.subrange(0, root.len() as int) == root
    &&& ({
        let tail = p.subrange(root.len() as int, p.len() as int);
        safe_path(tail) && (tail.len() == 0 || tail[0] == '/' || root.last() == '/')
            && (tail.len() > 0 && tail[0] == '/' ==> tail.len() > 1 && tail[1] != '/')
    })
}

proof fn lemma_strip_keeps_safe(p: Seq<char>)
    requires
        safe_path(p),
    ensures
        safe_path(without_leading_slashes(p)),
        without_leading_slashes(p).len() == 0 || without_leading_slashes(p)[0] != '/',
    decreases p.len(),
{
    if p.len() > 0 && p[0] == '/' {
        let q = p.drop_first();
        assert forall|i: int, j: int| !#[trigger] is_dot_segment(q, i, j) by {
            if is_dot_segment(q, i, j) {
                assert(is_dot_segment(p, i + 1, j + 1));
            }
        }
        lemma_strip_keeps_safe(q);
    }
}

proof fn lemma_slash_prefix_safe(rel: Seq<char>)
    requires
        safe_path(rel),
        rel.len() > 0,
    ensures
        safe_path(seq!['/'] + rel),
{
    let q = seq!['/'] + rel;
    assert forall|i: int, j: int| !#[trigger] is_dot_segment(q, i, j) by {
        if is_dot_segment(q, i, j) {
            assert(i >= 1);
            assert(is_dot_segment(rel, i - 1, j - 1));
        }
    }
}

/// The file for request path `req_path` under `root`; see `entity_path_of`.
pub fn get_entity_path(root: &str, req_path: &str) -> (r: Option<String>)
    ensures
        r.is_some() == entity_path_of(root@, req_path@, req_path.spec_bytes()).is_some(),
        r.is_some() ==> r.unwrap()@ == entity_path_of(root@, req_path@, req_path.spec_bytes()).unwrap(),
        r.is_some() ==> lies_under(root@, r.unwrap()@),
{
    let req = chars_of(req_path);
    if req.len() == 0 || req[0] != '/' {
        return None;
    }
    // e.g. "/%E4%B8%AD%E6%96%87.txt" names "/中文.txt"
    let decoded = match percent_decode_str(req_path) {
        None => {
            return None;
        },
        Some(d) => d,
    };
    if !is_safe_path(decoded.as_str()) {
        return None;
    }
    let d = chars_of(decoded.as_str());
    let mut start: usize = 0;
    assert(d@.subrange(0, d@.len() as int) =~= d@);
    while start < d.len() && d[start] == '/'
        invariant
            start <= d@.len(),
            without_leading_slashes(d@) == without_leading_slashes(d@.subrange(start as int, d@.len() as int)),
        decreases d@.len() - start,
    {
        assert(d@.subrange(start as int, d@.len() as int).drop_first() =~= d@.subrange(start + 1, d@.len() as int));
        start += 1;
    }
    assert(d@.subrange(0, d@.len() as int) =~= d@);
    let ghost rel = without_leading_slashes(d@);
    let mut tail: Vec<char> = Vec::new();
    let mut k: usize = start;
    while k < d.len()
        invariant
            start <= k <= d@.len(),
            tail@ == d@.subrange(start as int, k as int),
        decreases d@.len() - k,
    {
        tail.push(d[k]);
        k += 1;
        assert(tail@ =~= d@.subrange(start as int, k as int));
    }
    assert(tail@ == rel);
    proof {
        lemma_strip_keeps_safe(d@);
    }
    let r = chars_of(root);
    let mut out = root.to_owned();
    if tail.len() == 0 {
        assert(out@.subrange(0, r@.len() as int) =~= root@);
        assert(out@.subrange(r@.len() as int, out@.len() as int) =~= Seq::<char>::empty());
        return Some(out);
    }
    if r.len() == 0 || r[r.len() - 1] != '/' {
        let sep: [char; 1] = ['/'];
        out.append(string_of(&sep).as_str());
        proof {
            lemma_slash_prefix_safe(rel);
        }
    }
    out.append(string_of(tail.as_slice()).as_str());
    assert(out@ =~= join_under(root@, rel));
    assert(out@.subrange(0, r@.len() as int) =~= root@);
    proof {
        let t = out@.subrange(r@.len() as int, out@.len() as int);
        if r@.len() == 0 || r@.last() != '/' {
            assert(t =~= seq!['/'] + rel);
        } else {
            assert(t =~= rel);
        }
    }
    Some(out)
}

} // verus!
