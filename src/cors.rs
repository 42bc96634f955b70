//! The CORS stage: preflight answers, and the headers added to other responses.

use vstd::prelude::*;

use crate::http::{eq_ignore_case, fields, same_name, set_header, without_field, Body, Header, Method, Response};
use crate::response::plaintext;
use crate::text::{decimal, decimal_of};
use crate::util::{append_header_vary, vary_fields};

verus! {

/// The origins a site accepts.
pub enum CorsOrigin {
    Any,
    /// These serialized origins (`scheme://host[:port]`), compared exactly.
    Few(Vec<String>),
}

impl CorsOrigin {
    /// By default no origin is accepted.
    pub fn default() -> (r: CorsOrigin)
        ensures
            r matches CorsOrigin::Few(v) && v@.len() == 0,
    {
        CorsOrigin::Few(Vec::new())
    }
}

/// CORS settings of a site.
pub struct CorsConfig {
    pub origin: CorsOrigin,
    /// Method names, as they appear in `Access-Control-Request-Method`.
    pub methods: Vec<String>,
    /// Request header names a preflight may ask for (compared without regard to ASCII case).
    pub allowed_headers: Vec<String>,
    pub exposed_headers: Vec<String>,
    pub allow_credentials: bool,
    pub max_age: Option<u32>,
}

pub fn default_cors_allow_credentials() -> (r: bool)
    ensures
        !r,
{
    false
}

/// The views of a list of strings.
pub open spec fn views(v: Seq<String>) -> Seq<Seq<char>> {
    v.map_values(|s: String| s@)
}

/// The items joined by `, `.
pub open spec fn comma_list(items: Seq<Seq<char>>) -> Seq<char>
    decreases items.len(),
{
    if items.len() == 0 {
        Seq::empty()
    } else if items.len() == 1 {
        items[0]
    } else {
        comma_list(items.drop_last()) + seq![',', ' '] + items.last()
    }
}

/// The strings of `v` joined by `, `.
pub fn join_comma(v: &Vec<String>) -> (r: String)
    ensures
        r@ == comma_list(views(v@)),
{
    let mut out = String::new();
    let mut i: usize = 0;
    while i < v.len()
        invariant
            i <= v@.len(),
            out@ == comma_list(views(v@).subrange(0, i as int)),
        decreases v@.len() - i,
    {
        if i > 0 {
            out.append(", ");
            proof {
                reveal_strlit(", ");
            }
        }
        out.append(v[i].as_str());
        i += 1;
        assert(views(v@).subrange(0, i as int).drop_last() =~= views(v@).subrange(0, i - 1));
        assert(out@ =~= comma_list(views(v@).subrange(0, i as int)));
    }
    assert(views(v@).subrange(0, v@.len() as int) =~= views(v@));
    out
}

/// `origin` is accepted by the configuration.
pub open spec fn origin_allowed_spec(config: &CorsConfig, origin: Seq<char>) -> bool {
    match config.origin {
        CorsOrigin::Any => true,
        CorsOrigin::Few(v) => exists|i: int| 0 <= i < v@.len() && (#[trigger] v@[i])@ == origin,
    }
}

fn contains_origin(alloweds: &Vec<String>, origin: &str) -> (r: bool)
    ensures
        r == exists|i: int| 0 <= i < alloweds@.len() && (#[trigger] alloweds@[i])@ == origin@,
{
    let o = origin.to_owned();
    let mut i: usize = 0;
    while i < alloweds.len()
        invariant
            i <= alloweds@.len(),
            o@ == origin@,
            forall|j: int| 0 <= j < i ==> (#[trigger] alloweds@[j])@ != origin@,
        decreases alloweds@.len() - i,
    {
        if alloweds[i] == o {
            assert(alloweds@[i as int]@ == origin@);
            return true;
        }
        i += 1;
    }
    false
}

pub fn origin_allowed(config: &CorsConfig, origin: &str) -> (r: bool)
    ensures
        r == origin_allowed_spec(config, origin@),
{
    match &config.origin {
        CorsOrigin::Any => true,
        CorsOrigin::Few(alloweds) => contains_origin(alloweds, origin),
    }
}

/// `name` is one of `v`, without regard to ASCII case.
pub open spec fn listed(v: Seq<String>, name: Seq<char>) -> bool {
    exists|i: int| 0 <= i < v.len() && same_name((#[trigger] v[i])@, name)
}

fn is_listed(v: &Vec<String>, name: &str) -> (r: bool)
    ensures
        r == listed(v@, name@),
{
    let mut i: usize = 0;
    while i < v.len()
        invariant
            i <= v@.len(),
            forall|j: int| 0 <= j < i ==> !same_name((#[trigger] v@[j])@, name@),
        decreases v@.len() - i,
    {
        if eq_ignore_case(v[i].as_str(), name) {
            return true;
        }
        i += 1;
    }
    false
}

/// Every requested header is among the allowed ones.
pub open spec fn headers_allowed(config: &CorsConfig, requested: Seq<String>) -> bool {
    forall|i: int| 0 <= i < requested.len() ==> listed(config.allowed_headers@, (#[trigger] requested[i])@)
}

/// A response header that CORS exposes without being named; `Content-Type`
/// is not treated as one here.
pub open spec fn is_simple_header(name: Seq<char>) -> bool {
    same_name(name, "Cache-Control"@) || same_name(name, "Content-Language"@) || same_name(
        name,
        "Expires"@,
    ) || same_name(name, "Last-Modified"@) || same_name(name, "Pragma"@)
}

fn simple_header(name: &str) -> (r: bool)
    ensures
        r == is_simple_header(name@),
{
    eq_ignore_case(name, "Cache-Control") || eq_ignore_case(name, "Content-Language")
        || eq_ignore_case(name, "Expires") || eq_ignore_case(name, "Last-Modified") || eq_ignore_case(
        name,
        "Pragma",
    )
}

/// Some requested header is not simple.
pub open spec fn asks_nonsimple(requested: Seq<String>) -> bool {
    exists|i: int| 0 <= i < requested.len() && !is_simple_header((#[trigger] requested[i])@)
}

/// The preflight succeeds: the origin is accepted, a method was requested and
/// is configured, and every requested header is allowed.
pub open spec fn preflight_ok(
    config: &CorsConfig,
    origin: Seq<char>,
    request_method: Option<Seq<char>>,
    request_headers: Seq<String>,
) -> bool {
    &&& origin_allowed_spec(config, origin)
    &&& request_method matches Some(m) && exists|i: int|
        0 <= i < config.methods@.len() && (#[trigger] config.methods@[i])@ == m
    &&& headers_allowed(config, request_headers)
}

/// The fields of every preflight answer.
pub open spec fn preflight_base() -> Seq<(Seq<char>, Seq<char>)> {
    seq![
        ("Vary"@, "Origin"@),
        ("Content-Length"@, "0"@),
        ("Content-Type"@, "text/plain; charset=utf-8"@),
    ]
}

/// The fields of a successful preflight answer.
pub open spec fn preflight_granted(
    config: &CorsConfig,
    origin: Seq<char>,
    request_headers: Seq<String>,
) -> Seq<(Seq<char>, Seq<char>)> {
    let a = preflight_base() + seq![
        ("Access-Control-Allow-Origin"@, origin),
        ("Access-Control-Allow-Methods"@, comma_list(views(config.methods@))),
    ];
    let b = if config.allow_credentials {
        a.push(("Access-Control-Allow-Credentials"@, "true"@))
    } else {
        a
    };
    let c = match config.max_age {
        Some(age) => b.push(("Access-Control-Max-Age"@, decimal_of(age as nat))),
        None => b,
    };
    if asks_nonsimple(request_headers) {
        c.push(("Access-Control-Allow-Headers"@, comma_list(views(config.allowed_headers@))))
    } else {
        c
    }
}

fn push_field(headers: &mut Vec<Header>, name: &str, value: String)
    ensures
        fields(final(headers)@) == fields(old(headers)@).push((name@, value@)),
{
    headers.push(Header::new(name, value));
    assert(fields(headers@) =~= fields(old(headers)@).push((name@, value@)));
}

/// The answer to a preflight (`OPTIONS`) request from `origin`, built here
/// rather than by later stages.
pub fn preflight(
    config: &CorsConfig,
    origin: &str,
    request_method: Option<&str>,
    request_headers: &Vec<String>,
) -> (r: Response)
    ensures
        r.status == 200,
        r.body is Empty,
        r.fields() == (if preflight_ok(
            config,
            origin@,
            match request_method {
                Some(m) => Some(m@),
                None => None,
            },
            request_headers@,
        ) {
            preflight_granted(config, origin@, request_headers@)
        } else {
            preflight_base()
        }),
{
    let mut headers: Vec<Header> = Vec::new();
    push_field(&mut headers, "Vary", "Origin".to_owned());
    push_field(&mut headers, "Content-Length", "0".to_owned());
    push_field(&mut headers, "Content-Type", plaintext());
    assert(fields(headers@) =~= preflight_base());
    let ghost rm = match request_method {
        Some(m) => Some(m@),
        None => None,
    };
    if !origin_allowed(config, origin) {
        return Response { status: 200, headers, body: Body::Empty };
    }
    let method = match request_method {
        None => {
            return Response { status: 200, headers, body: Body::Empty };
        },
        Some(m) => m,
    };
    let wanted = method.to_owned();
    let mut found = false;
    let mut i: usize = 0;
    while i < config.methods.len()
        invariant
            i <= config.methods@.len(),
            wanted@ == method@,
            fields(headers@) == preflight_base(),
            !found ==> forall|j: int| 0 <= j < i ==> (#[trigger] config.methods@[j])@ != method@,
            found ==> exists|j: int| 0 <= j < config.methods@.len() && (#[trigger] config.methods@[j])@ == method@,
        decreases config.methods@.len() - i,
    {
        if config.methods[i] == wanted {
            found = true;
            assert(config.methods@[i as int]@ == method@);
        }
        i += 1;
    }
    if !found {
        return Response { status: 200, headers, body: Body::Empty };
    }
    let mut k: usize = 0;
    while k < request_headers.len()
        invariant
            k <= request_headers@.len(),
            fields(headers@) == preflight_base(),
            forall|j: int| 0 <= j < k ==> listed(config.allowed_headers@, (#[trigger] request_headers@[j])@),
        decreases request_headers@.len() - k,
    {
        if !is_listed(&config.allowed_headers, request_headers[k].as_str()) {
            assert(!headers_allowed(config, request_headers@));
            return Response { status: 200, headers, body: Body::Empty };
        }
        k += 1;
    }
    push_field(&mut headers, "Access-Control-Allow-Origin", origin.to_owned());
    push_field(&mut headers, "Access-Control-Allow-Methods", join_comma(&config.methods));
    if config.allow_credentials {
        push_field(&mut headers, "Access-Control-Allow-Credentials", "true".to_owned());
    }
    match config.max_age {
        Some(age) => push_field(&mut headers, "Access-Control-Max-Age", decimal(age as u64)),
        None => {},
    }
    let ghost mid = fields(headers@);
    let mut nonsimple = false;
    let mut n: usize = 0;
    while n < request_headers.len()
        invariant
            n <= request_headers@.len(),
            fields(headers@) == mid,
            nonsimple == exists|j: int| 0 <= j < n && !is_simple_header((#[trigger] request_headers@[j])@),
        decreases request_headers@.len() - n,
    {
        if !simple_header(request_headers[n].as_str()) {
            nonsimple = true;
        }
        n += 1;
    }
    assert(request_headers@.subrange(0, request_headers@.len() as int) =~= request_headers@);
    if nonsimple {
        push_field(&mut headers, "Access-Control-Allow-Headers", join_comma(&config.allowed_headers));
    }
    assert(preflight_ok(config, origin@, rm, request_headers@));
    assert(fields(headers@) =~= preflight_granted(config, origin@, request_headers@));
    Response { status: 200, headers, body: Body::Empty }
}

/// `hs` with one field `(name, value)` in place of every field named `name`.
pub open spec fn with_field(hs: Seq<(Seq<char>, Seq<char>)>, name: Seq<char>, value: Seq<char>) -> Seq<
    (Seq<char>, Seq<char>),
> {
    without_field(hs, name).push((name, value))
}

/// The fields of a response to an accepted cross-origin request.
pub open spec fn cors_fields(config: &CorsConfig, origin: Seq<char>, hs: Seq<(Seq<char>, Seq<char>)>) -> Seq<
    (Seq<char>, Seq<char>),
> {
    let a = with_field(vary_fields(hs, "Origin"@), "Access-Control-Allow-Origin"@, origin);
    let b = if config.allow_credentials {
        with_field(a, "Access-Control-Allow-Credentials"@, "true"@)
    } else {
        a
    };
    if config.exposed_headers@.len() > 0 {
        with_field(b, "Access-Control-Expose-Headers"@, comma_list(views(config.exposed_headers@)))
    } else {
        b
    }
}

/// Adds the CORS fields to the response of a non-preflight request from an
/// accepted `origin`; leaves it as it is otherwise.
pub fn cors_response(config: &CorsConfig, origin: &str, res: &mut Response)
    ensures
        final(res).status == old(res).status,
        final(res).body == old(res).body,
        final(res).fields() == (if origin_allowed_spec(config, origin@) {
            cors_fields(config, origin@, old(res).fields())
        } else {
            old(res).fields()
        }),
{
    if !origin_allowed(config, origin) {
        return;
    }
    append_header_vary(&mut res.headers, "Origin");
    set_header(&mut res.headers, "Access-Control-Allow-Origin", origin.to_owned());
    if config.allow_credentials {
        set_header(&mut res.headers, "Access-Control-Allow-Credentials", "true".to_owned());
    }
    if config.exposed_headers.len() > 0 {
        set_header(&mut res.headers, "Access-Control-Expose-Headers", join_comma(&config.exposed_headers));
    }
}

/// What the CORS stage does with a request.
pub enum CorsPlan {
    /// No CORS configuration, or no `Origin`: pass the request on untouched.
    Pass,
    /// A preflight: answer with this response.
    Preflight(Response),
    /// Pass the request on, then add the CORS fields to the response.
    Rewrite,
}

pub fn plan_cors(
    config: Option<&CorsConfig>,
    method: &Method,
    origin: Option<&str>,
    request_method: Option<&str>,
    request_headers: &Vec<String>,
) -> (r: CorsPlan)
    ensures
        (config.is_none() || origin.is_none()) ==> r is Pass,
        config.is_some() && origin.is_some() && *method == Method::Options ==> (r matches CorsPlan::Preflight(res)
            && res.status == 200 && res.body is Empty && res.fields() == (if preflight_ok(
            config.unwrap(),
            origin.unwrap()@,
            match request_method {
                Some(m) => Some(m@),
                None => None,
            },
            request_headers@,
        ) {
            preflight_granted(config.unwrap(), origin.unwrap()@, request_headers@)
        } else {
            preflight_base()
        })),
        config.is_some() && origin.is_some() && *method != Method::Options ==> r is Rewrite,
{
    match (config, origin) {
        (Some(c), Some(o)) => {
            if *method == Method::Options {
                CorsPlan::Preflight(preflight(c, o, request_method, request_headers))
            } else {
                CorsPlan::Rewrite
            }
        },
        _ => CorsPlan::Pass,
    }
}

} // verus!
