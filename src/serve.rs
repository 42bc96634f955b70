//! The static-file stage: which file a request names, and the response for it.

use vstd::prelude::*;
use vstd::string::StringSliceAdditionalSpecFns;

use crate::entity::{etag_text, ETagKind, Entity};
use crate::hop::{is_hop_name, lemma_not_hop_by_length, no_hop_fields};
use crate::http::{fields, Body, Header, Method, Response};
use crate::negotiate::{any_match, any_match_spec, none_match, none_match_spec, ETagCondition, EntityTag};
use crate::range::range_outcome;
use crate::path::{get_entity_path, entity_path_of, lies_under};
use crate::range::{ parse_range_header, RangeHeader, RequestedRange};
use crate::response::{
    etag_header_value, etag_wire, http_date, http_date_of, invalid_range, method_not_allowed,
    not_found, not_modified, precondition_failed, unsatisfied_range,
};
use crate::text::{chars_of, decimal, decimal_of};

verus! {

/// Bodies are read in chunks of at most this many bytes.
pub const CHUNK_SIZE: u64 = 65_536;

/// How many bytes to read next at `pos` for a body ending at `end`: a chunk of
/// at most `CHUNK_SIZE`, or `None` once the body is complete.
pub fn next_read(pos: u64, end: u64) -> (r: Option<u64>)
    ensures
        pos >= end ==> r.is_none(),
        pos < end ==> r == Some(if end - pos < CHUNK_SIZE {
            (end - pos) as u64
        } else {
            CHUNK_SIZE
        }),
{
    if pos >= end {
        None
    } else if end - pos < CHUNK_SIZE {
        Some(end - pos)
    } else {
        Some(CHUNK_SIZE)
    }
}

/// Where the next read starts after `got` bytes were read at `pos`: a short read
/// is respected, and an empty one (the file was truncated) ends the body.
pub fn after_read(pos: u64, got: u64, asked: u64) -> (r: Option<u64>)
    requires
        got <= asked,
        pos + asked <= u64::MAX,
    ensures
        got == 0 ==> r.is_none(),
        got > 0 ==> r == Some((pos + got) as u64),
{
    if got == 0 {
        None
    } else {
        Some(pos + got)
    }
}

/// Static-file settings of a site.
pub struct ServeConfig {
    /// The folder whose files are served.
    pub root: String,
    /// List folders.
    pub browse: bool,
    /// Serve files whose names begin with a dot.
    pub dotfiles: bool,
}

/// What the static-file stage does before it touches the filesystem.
pub enum ServePlan {
    /// Answer at once.
    Respond(Response),
    /// Leave the request to the next stage.
    Descend,
    /// Open this file and answer from it.
    Open(String),
}

/// The methods that static files answer.
pub open spec fn is_read_method(m: Method) -> bool {
    m == Method::Get || m == Method::Head || m == Method::Options
}

/// The last segment of `p` (after its last slash) begins at `i`.
pub open spec fn last_segment_at(p: Seq<char>, i: int) -> bool {
    0 <= i <= p.len() && (i == 0 || p[i - 1] == '/') && forall|j: int| i <= j < p.len() ==> p[j] != '/'
}

/// The last segment of `p` begins with a dot.
pub open spec fn is_dotfile(p: Seq<char>) -> bool {
    exists|i: int| #[trigger] last_segment_at(p, i) && i < p.len() && p[i] == '.'
}

fn last_segment_is_dotted(p: &str) -> (r: bool)
    ensures
        r == is_dotfile(p@),
{
    let c = chars_of(p);
    let mut i: usize = c.len();
    // Walk back to the start of the last segment.
    while i > 0 && c[i - 1] != '/'
        invariant
            i <= c@.len(),
            c@ == p@,
            forall|j: int| i <= j < c@.len() ==> c@[j] != '/',
        decreases i,
    {
        i -= 1;
    }
    assert(last_segment_at(p@, i as int));
    if i < c.len() && c[i] == '.' {
        return true;
    }
    proof {
        if is_dotfile(p@) {
            let k = choose|k: int| #[trigger] last_segment_at(p@, k) && k < p@.len() && p@[k] == '.';
            if k < i {
                assert(p@[i - 1] == '/');
            } else if k > i {
                assert(p@[k - 1] == '/');
            }
        }
    }
    false
}

/// The static-file stage's decision for `method` and request path `req_path`.
pub fn plan_request(config: &ServeConfig, method: &Method, req_path: &str) -> (r: ServePlan)
    ensures
        !is_read_method(*method) ==> (r matches ServePlan::Respond(res) && res.status == 405
            && res.fields() == seq![
            ("Content-Type"@, "text/plain; charset=utf-8"@),
            ("Content-Length"@, decimal_of("Only GET, HEAD, OPTIONS allowed".len() as nat)),
            ("Allow"@, "GET, HEAD, OPTIONS"@),
        ] && (res.body matches Body::Text(t) && t@ == "Only GET, HEAD, OPTIONS allowed"@)),
        is_read_method(*method) && entity_path_of(config.root@, req_path@, req_path.spec_bytes()).is_none()
            ==> (r matches ServePlan::Respond(res) && res.status == 404 && res.fields() == seq![
            ("Content-Type"@, "text/plain; charset=utf-8"@),
            ("Content-Length"@, decimal_of("Not found".len() as nat)),
        ] && (res.body matches Body::Text(t) && t@ == "Not found"@)),
        is_read_method(*method) && entity_path_of(config.root@, req_path@, req_path.spec_bytes()).is_some()
            ==> ({
            let p = entity_path_of(config.root@, req_path@, req_path.spec_bytes()).unwrap();
            if !config.dotfiles && is_dotfile(p) {
                r is Descend
            } else {
                (r matches ServePlan::Open(q) && q@ == p)
            }
        }),
        r matches ServePlan::Open(q) ==> lies_under(config.root@, q@),
{
    if !(*method == Method::Get || *method == Method::Head || *method == Method::Options) {
        return ServePlan::Respond(method_not_allowed());
    }
    let entity_path = match get_entity_path(config.root.as_str(), req_path) {
        None => {
            return ServePlan::Respond(not_found());
        },
        Some(p) => p,
    };
    if !config.dotfiles && last_segment_is_dotted(entity_path.as_str()) {
        return ServePlan::Descend;
    }
    ServePlan::Open(entity_path)
}

/// The request's validators.
pub struct Conditions {
    pub if_none_match: Option<ETagCondition>,
    /// `If-Modified-Since`, in seconds since the epoch.
    pub if_modified_since: Option<u64>,
    pub if_match: Option<ETagCondition>,
    /// `If-Unmodified-Since`, in seconds since the epoch.
    pub if_unmodified_since: Option<u64>,
}

/// A reference to the value inside `o`, if any.
pub open spec fn option_ref<T>(o: &Option<T>) -> Option<&T> {
    match o {
        Some(x) => Some(x),
        None => None,
    }
}

/// The strong tag of a file.
pub open spec fn strong_tag(e: Entity) -> Seq<char> {
    etag_text(e.inode as nat, e.len as nat, e.mtime_ms as nat)
}

/// A 304 is owed: `If-None-Match` matches, or else `If-Modified-Since` is not
/// older than the file.
pub open spec fn not_modified_spec(e: Entity, c: &Conditions, tag: Seq<char>) -> bool {
    if !none_match_spec(option_ref(&c.if_none_match), tag) {
        true
    } else {
        match c.if_modified_since {
            Some(since) => e.modified_secs() <= since,
            None => false,
        }
    }
}

/// A 412 is owed: `If-Match` fails, or else the file changed after `If-Unmodified-Since`.
pub open spec fn precondition_failed_spec(e: Entity, c: &Conditions, weak: bool, tag: Seq<char>) -> bool {
    if !any_match_spec(option_ref(&c.if_match), weak, tag) {
        true
    } else {
        match c.if_unmodified_since {
            Some(since) => e.modified_secs() > since,
            None => false,
        }
    }
}

pub fn is_not_modified(entity: &Entity, conditions: &Conditions, entity_etag: &EntityTag) -> (r: bool)
    ensures
        r == not_modified_spec(*entity, conditions, entity_etag.tag@),
{
    if !none_match(conditions.if_none_match.as_ref(), entity_etag) {
        true
    } else if let Some(since) = conditions.if_modified_since {
        entity.last_modified() <= since
    } else {
        false
    }
}

pub fn is_precondition_failed(entity: &Entity, conditions: &Conditions, entity_etag: &EntityTag) -> (r:
    bool)
    ensures
        r == precondition_failed_spec(*entity, conditions, entity_etag.weak, entity_etag.tag@),
{
    if !any_match(conditions.if_match.as_ref(), entity_etag) {
        true
    } else if let Some(since) = conditions.if_unmodified_since {
        entity.last_modified() > since
    } else {
        false
    }
}

/// `bytes a-b/len`.
pub open spec fn content_range(a: nat, b: nat, len: nat) -> Seq<char> {
    seq!['b', 'y', 't', 'e', 's', ' '] + decimal_of(a) + seq!['-'] + decimal_of(b) + seq!['/']
        + decimal_of(len)
}

/// The fields every served file carries, before its length and range.
pub open spec fn entity_fields(e: Entity) -> Seq<(Seq<char>, Seq<char>)> {
    seq![
        ("ETag"@, etag_wire(false, etag_text(e.inode as nat, e.len as nat, e.mtime_ms as nat))),
        ("Accept-Ranges"@, "bytes"@),
        ("Last-Modified"@, http_date_of(e.modified_secs())),
        ("Content-Type"@, e.content_type@),
    ]
}

proof fn lemma_satisfiable_within_file_for(has_range: bool, range: Option<&RangeHeader>, len: u64)
    ensures
        range_outcome(has_range, range, len as nat) matches RequestedRange::Satisfiable(a, b) ==> a <= b
            && b < len,
{
}

proof fn lemma_entity_names_not_hop()
    ensures
        !is_hop_name("ETag"@),
        !is_hop_name("Accept-Ranges"@),
        !is_hop_name("Last-Modified"@),
        !is_hop_name("Content-Type"@),
        !is_hop_name("Content-Length"@),
        !is_hop_name("Content-Range"@),
{
    reveal_strlit("ETag");
    reveal_strlit("Accept-Ranges");
    reveal_strlit("Last-Modified");
    reveal_strlit("Content-Type");
    reveal_strlit("Content-Length");
    reveal_strlit("Content-Range");
    lemma_not_hop_by_length("ETag"@);
    lemma_not_hop_by_length("Accept-Ranges"@);
    lemma_not_hop_by_length("Last-Modified"@);
    lemma_not_hop_by_length("Content-Type"@);
    lemma_not_hop_by_length("Content-Length"@);
    lemma_not_hop_by_length("Content-Range"@);
}

/// The response for an opened regular file. `has_range` says whether the request
/// carried a `Range` field; `range` is that field where it could be parsed.
pub fn respond_with_entity(
    method: &Method,
    entity: &Entity,
    conditions: &Conditions,
    has_range: bool,
    range: Option<&RangeHeader>,
) -> (r: Response)
    ensures
        not_modified_spec(*entity, conditions, strong_tag(*entity)) ==> r.status == 304 && r.fields()
            == seq![
            ("ETag"@, etag_wire(false, strong_tag(*entity))),
            ("Content-Type"@, "text/plain; charset=utf-8"@),
            ("Content-Length"@, decimal_of(0)),
        ] && r.body is Empty,
        !not_modified_spec(*entity, conditions, strong_tag(*entity)) && precondition_failed_spec(
            *entity,
            conditions,
            false,
            strong_tag(*entity),
        ) ==> r.status == 412 && r.fields() == seq![
            ("Content-Type"@, "text/plain; charset=utf-8"@),
            ("Content-Length"@, decimal_of(0)),
        ] && r.body is Empty,
        !not_modified_spec(*entity, conditions, strong_tag(*entity)) && !precondition_failed_spec(
            *entity,
            conditions,
            false,
            strong_tag(*entity),
        ) ==> match range_outcome(has_range, range, entity.len as nat) {
            RequestedRange::NotSatisfiable => r.status == 416 && r.fields() == seq![
                ("Content-Type"@, "text/plain; charset=utf-8"@),
                ("Content-Length"@, decimal_of("Invalid range".len() as nat)),
                ("Content-Range"@, unsatisfied_range(entity.len as nat)),
            ] && (r.body matches Body::Text(t) && t@ == "Invalid range"@),
            RequestedRange::NoRange => r.status == 200 && r.fields() == entity_fields(*entity).push(
                ("Content-Length"@, decimal_of(entity.len as nat)),
            ) && r.body == (if *method == Method::Head {
                Body::Empty
            } else {
                Body::File { start: 0, end: entity.len }
            }),
            RequestedRange::Satisfiable(a, b) => r.status == 206 && r.fields() == entity_fields(
                *entity,
            ) + seq![
                ("Content-Range"@, content_range(a as nat, b as nat, entity.len as nat)),
                ("Content-Length"@, decimal_of((b - a + 1) as nat)),
            ] && r.body == (if *method == Method::Head {
                Body::Empty
            } else {
                Body::File { start: a, end: (b + 1) as u64 }
            }),
        },
        (r.status == 304 || r.status == 412 || r.status == 416) ==> !r.body.reads_file(),
        no_hop_fields(r.fields()),
{
    proof {
        lemma_entity_names_not_hop();
    }
    let etag = entity.etag(&ETagKind::Strong);
    if is_not_modified(entity, conditions, &etag) {
        return not_modified(&etag);
    }
    if is_precondition_failed(entity, conditions, &etag) {
        return precondition_failed();
    }
    // Ranges are evaluated after the preconditions (RFC 7233 section 3.1).
    let requested = parse_range_header(has_range, range, entity.len());
    let (start, end) = match requested {
        RequestedRange::NotSatisfiable => {
            return invalid_range(entity.len());
        },
        RequestedRange::NoRange => (0, entity.len()),
        // The header's end is inclusive; the body's is not.
        RequestedRange::Satisfiable(a, b) => (a, b + 1),
    };
    let mut headers: Vec<Header> = Vec::new();
    headers.push(Header::new("ETag", etag_header_value(&etag)));
    headers.push(Header::new("Accept-Ranges", "bytes".to_owned()));
    headers.push(Header::new("Last-Modified", http_date(entity.last_modified())));
    headers.push(Header::new("Content-Type", entity.content_type.clone()));
    let status: u16 = match requested {
        RequestedRange::Satisfiable(a, b) => {
            let mut cr = "bytes ".to_owned();
            cr.append(decimal(a).as_str());
            cr.append("-");
            cr.append(decimal(b).as_str());
            cr.append("/");
            cr.append(decimal(entity.len()).as_str());
            proof {
                reveal_strlit("bytes ");
                reveal_strlit("-");
                reveal_strlit("/");
            }
            assert(cr@ =~= content_range(a as nat, b as nat, entity.len as nat));
            headers.push(Header::new("Content-Range", cr));
            206
        },
        _ => 200,
    };
    proof {
        lemma_satisfiable_within_file_for(has_range, range, entity.len);
    }
    headers.push(Header::new("Content-Length", decimal(end - start)));
    assert(fields(headers@) =~= match requested {
        RequestedRange::Satisfiable(a, b) => entity_fields(*entity) + seq![
            ("Content-Range"@, content_range(a as nat, b as nat, entity.len as nat)),
            ("Content-Length"@, decimal_of((b - a + 1) as nat)),
        ],
        _ => entity_fields(*entity).push(("Content-Length"@, decimal_of(entity.len as nat))),
    });
    // A HEAD response has every header of the GET response and no body.
    let body = if *method == Method::Head {
        Body::Empty
    } else {
        Body::File { start, end }
    };
    Response { status, headers, body }
}

} // verus!
