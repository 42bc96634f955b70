//! The first and last stage: which site a request is for, and the `Server`
//! field on every response.

use vstd::prelude::*;

use crate::config::{find_site, site_has_host, Site};
use crate::host::{same_host, Host};
use crate::http::{set_header, with_server_fields, Body, Response};
use crate::text::decimal_of;
use crate::response::{bad_request, not_found};

verus! {

/// The host a request is for: the authority of an absolute request URI
/// replaces the `Host` field (RFC 7230 section 5.4).
pub fn fix_host_header(host_header: Host, uri_authority: Option<Host>) -> (r: Host)
    ensures
        uri_authority matches Some(a) ==> r.hostname@ == a.hostname@ && r.port == a.port,
        uri_authority.is_none() ==> r.hostname@ == host_header.hostname@ && r.port == host_header.port,
{
    match uri_authority {
        Some(a) => a,
        None => host_header,
    }
}

/// The host a request with these fields is for.
pub open spec fn requested_host(host_header: &Option<Host>, uri_authority: &Option<Host>) -> Host {
    match uri_authority {
        Some(a) => *a,
        None => host_header.unwrap(),
    }
}

/// Where a request goes.
pub enum Dispatch {
    /// Answer at once.
    Respond(Response),
    /// Run the pipeline of the site at this index.
    Site(usize),
}

/// Picks the site for a request from its `Host` field and, for an absolute
/// request URI, the URI's authority: 400 without a `Host` field, 404 where no
/// site answers for the host.
pub fn dispatch(sites: &Vec<Site>, host_header: Option<Host>, uri_authority: Option<Host>) -> (r:
    Dispatch)
    ensures
        host_header.is_none() ==> (r matches Dispatch::Respond(res) && res.status == 400 && res.fields()
            == seq![
            ("Content-Type"@, "text/plain; charset=utf-8"@),
            ("Content-Length"@, decimal_of("missing host header".len() as nat)),
        ] && (res.body matches Body::Text(t) && t@ == "missing host header"@)),
        host_header.is_some() ==> ({
            let host = requested_host(&host_header, &uri_authority);
            match r {
                Dispatch::Site(i) => i < sites@.len() && site_has_host(sites@, i as int, &host)
                    && forall|j: int| 0 <= j < i ==> !site_has_host(sites@, j, &host),
                Dispatch::Respond(res) => res.status == 404 && res.fields() == seq![
                    ("Content-Type"@, "text/plain; charset=utf-8"@),
                    ("Content-Length"@, decimal_of("Not found".len() as nat)),
                ] && (res.body matches Body::Text(t) && t@ == "Not found"@) && forall|j: int|
                    0 <= j < sites@.len() ==> !site_has_host(sites@, j, &host),
            }
        }),
{
    let ghost expected = requested_host(&host_header, &uri_authority);
    let header = match host_header {
        None => {
            return Dispatch::Respond(bad_request("missing host header"));
        },
        Some(h) => h,
    };
    let host = fix_host_header(header, uri_authority);
    proof {
        assert forall|j: int| 0 <= j < sites@.len() implies site_has_host(sites@, j, &host)
            == site_has_host(sites@, j, &expected) by {
            if site_has_host(sites@, j, &host) {
                let k = choose|k: int| 0 <= k < sites@[j].host@.len() && same_host(&(#[trigger] sites@[j].host@[k]), &host);
                assert(same_host(&sites@[j].host@[k], &expected));
            }
            if site_has_host(sites@, j, &expected) {
                let k = choose|k: int| 0 <= k < sites@[j].host@.len() && same_host(&(#[trigger] sites@[j].host@[k]), &expected);
                assert(same_host(&sites@[j].host@[k], &host));
            }
        }
    }
    match find_site(sites, &host) {
        None => Dispatch::Respond(not_found()),
        Some(i) => Dispatch::Site(i),
    }
}

/// Sets `Server: prox` on a response leaving the pipeline.
pub fn finish(res: &mut Response)
    ensures
        final(res).status == old(res).status,
        final(res).body == old(res).body,
        final(res).fields() == with_server_fields(old(res).fields()),
{
    set_header(&mut res.headers, "Server", "prox".to_owned());
}

} // verus!
