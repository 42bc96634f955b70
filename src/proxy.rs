//! The proxy stage: where a request goes upstream, how it is rewritten on the
//! way, and what the client gets back.

use vstd::prelude::*;
use vstd::string::StringSliceAdditionalSpecFns;

use crate::hop::{
    end_to_end, lemma_filter_keeps_no_hop, lemma_not_hop_by_length, no_hop_fields,
    without_hop_headers,
};
use crate::http::{
    field, fields, get_header, lemma_field_of_last, lemma_without_field_lacks,
    same_name, set_header, without_field, Header, Method, Response,
};
use crate::path::{climbs, path_climbs};
use crate::response::{gateway_timeout, internal_server_error, not_found};

verus! {

/// A request as the pipeline passes it on.
pub struct Request {
    pub method: Method,
    /// The request target: a path, or for a forwarded request the upstream URL.
    pub uri: String,
    pub headers: Vec<Header>,
}

/// The URL that reference `reference` resolves to against base URL `base`
/// (by the WHATWG URL Standard), serialized; `None` where either does not parse.
pub uninterp spec fn joined_url(base: Seq<char>, reference: Seq<char>) -> Option<Seq<char>>;

/// Relies on `url::Url::parse` of the base URL and `Url::join` of the reference:
/// the serialization of the resolved URL, which depends on the two strings alone.
#[verifier::external_body]
fn join_url(base: &str, reference: &str) -> (r: Option<String>)
    ensures
        r.is_some() == joined_url(base@, reference@).is_some(),
        r.is_some() ==> r.unwrap()@ == joined_url(base@, reference@).unwrap(),
{
    url::Url::parse(base).and_then(|u| u.join(reference)).ok().map(|u| u.as_str().to_owned())
}

/// `v` ends with `s`.
pub open spec fn ends_with(v: Seq<char>, s: Seq<char>) -> bool {
    s.len() <= v.len() && v.subrange(v.len() - s.len(), v.len() as int) == s
}

/// The `X-Forwarded-For` value after `ip` joined: appended to the list already there,
/// or alone.
pub open spec fn forwarded_for(previous: Option<Seq<char>>, ip: Seq<char>) -> Seq<char> {
    match previous {
        Some(v) => v + seq![',', ' '] + ip,
        None => ip,
    }
}

/// The headers sent upstream: the end-to-end fields, with the client's address
/// last in `X-Forwarded-For`.
pub open spec fn upstream_fields(hs: Seq<(Seq<char>, Seq<char>)>, ip: Seq<char>) -> Seq<
    (Seq<char>, Seq<char>),
> {
    let kept = end_to_end(hs);
    without_field(kept, "X-Forwarded-For"@).push(
        ("X-Forwarded-For"@, forwarded_for(field(kept, "X-Forwarded-For"@), ip)),
    )
}

/// The request sent upstream: its target replaced by `uri`, hop-by-hop fields
/// removed and `remote_ip` appended to `X-Forwarded-For`.
pub fn make_proxy_request(req: Request, uri: String, remote_ip: &str) -> (r: Request)
    ensures
        r.method == req.method,
        r.uri@ == uri@,
        fields(r.headers@) == upstream_fields(fields(req.headers@), remote_ip@),
        no_hop_fields(fields(r.headers@)),
        field(fields(r.headers@), "X-Forwarded-For"@) matches Some(v) && ends_with(v, remote_ip@),
{
    let mut headers = without_hop_headers(&req.headers);
    let ghost kept = fields(headers@);
    let value = match get_header(&headers, "X-Forwarded-For") {
        Some(previous) => {
            let mut v = previous;
            v.append(", ");
            v.append(remote_ip);
            proof {
                reveal_strlit(", ");
            }
            v
        },
        None => remote_ip.to_owned(),
    };
    assert(value@ == forwarded_for(field(kept, "X-Forwarded-For"@), remote_ip@));
    set_header(&mut headers, "X-Forwarded-For", value);
    proof {
        let f = ("X-Forwarded-For"@, value@);
        lemma_without_field_lacks(kept, "X-Forwarded-For"@);
        lemma_field_of_last(without_field(kept, "X-Forwarded-For"@), f, "X-Forwarded-For"@);
        let w = without_field(kept, "X-Forwarded-For"@);
        let pred = |g: (Seq<char>, Seq<char>)| !same_name(g.0, "X-Forwarded-For"@);
        lemma_filter_keeps_no_hop(kept, pred);
        reveal_strlit("X-Forwarded-For");
        lemma_not_hop_by_length(f.0);
        assert(fields(headers@) == w.push(f));
        let v = value@;
        assert(v.subrange(v.len() - remote_ip@.len(), v.len() as int) =~= remote_ip@);
    }
    Request { method: req.method, uri, headers }
}

/// The response passed back to the client: hop-by-hop fields removed.
pub fn make_proxy_response(res: Response) -> (r: Response)
    ensures
        r.status == res.status,
        r.fields() == end_to_end(res.fields()),
        no_hop_fields(r.fields()),
        r.body == res.body,
{
    let headers = without_hop_headers(&res.headers);
    Response { status: res.status, headers, body: res.body }
}

/// What the proxy stage does with a request.
pub enum ProxyPlan {
    /// Answer at once.
    Respond(Response),
    /// Send this request upstream.
    Forward(Request),
}

/// The reference resolved against the upstream URL: the path, then `?` and the
/// query where there is one.
pub open spec fn target_of(path: Seq<char>, query: Option<Seq<char>>) -> Seq<char> {
    match query {
        Some(q) => path + seq!['?'] + q,
        None => path,
    }
}

pub open spec fn query_view(q: Option<&str>) -> Option<Seq<char>> {
    match q {
        Some(s) => Some(s@),
        None => None,
    }
}

/// Where the request goes: nowhere (404) without an upstream URL or where the
/// target does not resolve against it; else upstream, rewritten.
pub fn plan_proxy(
    upstream: Option<&String>,
    req: Request,
    path: &str,
    query: Option<&str>,
    remote_ip: &str,
) -> (r: ProxyPlan)
    ensures
        upstream.is_none() || climbs(path.spec_bytes()) ==> (r matches ProxyPlan::Respond(res)
            && res.status == 404),
        upstream.is_some() && !climbs(path.spec_bytes()) ==> match joined_url(
            upstream.unwrap()@,
            target_of(path@, query_view(query)),
        ) {
            None => (r matches ProxyPlan::Respond(res) && res.status == 404),
            Some(url) => (r matches ProxyPlan::Forward(fwd) && fwd.uri@ == url && fwd.method
                == req.method && fields(fwd.headers@) == upstream_fields(
                fields(req.headers@),
                remote_ip@,
            )),
        },
{
    let base = match upstream {
        None => {
            return ProxyPlan::Respond(not_found());
        },
        Some(u) => u,
    };
    // A path that could climb is refused here too, not only by the file stages.
    if path_climbs(path) {
        return ProxyPlan::Respond(not_found());
    }
    let mut target = path.to_owned();
    match query {
        Some(q) => {
            target.append("?");
            target.append(q);
            proof {
                reveal_strlit("?");
            }
        },
        None => {},
    }
    assert(target@ =~= target_of(path@, query_view(query)));
    match join_url(base.as_str(), target.as_str()) {
        None => ProxyPlan::Respond(not_found()),
        Some(url) => ProxyPlan::Forward(make_proxy_request(req, url, remote_ip)),
    }
}

proof fn not_hop_plain_fields()
    ensures
        !crate::hop::is_hop_name("Content-Type"@),
        !crate::hop::is_hop_name("Content-Length"@),
{
    reveal_strlit("Content-Type");
    reveal_strlit("Content-Length");
    lemma_not_hop_by_length("Content-Type"@);
    lemma_not_hop_by_length("Content-Length"@);
}

/// How the race between the upstream request and the connect timer ended.
pub enum UpstreamEvent {
    /// The upstream server answered first.
    Answered(Response),
    /// The upstream request failed in transport.
    Failed,
    /// The connect timer fired first; the upstream request is dropped.
    TimedOut,
}

/// The client's response: the upstream answer without hop-by-hop fields, 500 on a
/// transport failure, and 504 Gateway Timeout when the connect timer wins.
pub fn proxy_outcome(event: UpstreamEvent) -> (r: Response)
    ensures
        event matches UpstreamEvent::Answered(res) ==> r.status == res.status && r.fields()
            == end_to_end(res.fields()) && r.body == res.body,
        event is Failed ==> r.status == 500,
        event is TimedOut ==> r.status == 504,
        no_hop_fields(r.fields()),
{
    match event {
        UpstreamEvent::Answered(res) => make_proxy_response(res),
        UpstreamEvent::Failed => {
            let r = internal_server_error();
            proof {
                not_hop_plain_fields();
            }
            r
        },
        UpstreamEvent::TimedOut => {
            let r = gateway_timeout();
            proof {
                not_hop_plain_fields();
            }
            r
        },
    }
}

} // verus!
