use std::io::Read;

use prox::browse::{listing_row, parent_href, plan_browse, sort_listing, visible_items, BrowsePlan, FolderItem};
use prox::config::{check_unique_hosts, Server, Site, Timeouts};
use prox::cors::{cors_response, preflight, CorsConfig, CorsOrigin};
use prox::entity::{ETagKind, Entity};
use prox::gzip::{compress_response, gzip_chunk, should_compress};
use prox::host::Host;
use prox::http::{get_header, Body, Header, Method, Response};
use prox::negotiate::{EntityTag, ETagCondition};
use prox::proxy::{make_proxy_request, plan_proxy, proxy_outcome, ProxyPlan, Request, UpstreamEvent};
use prox::range::{parse_range_header, ByteRangeSpec, RangeHeader, RequestedRange};
use prox::root::{dispatch, finish, Dispatch};
use prox::serve::{plan_request, respond_with_entity, Conditions, ServeConfig, ServePlan};
use prox::accept::parse_accept_encoding;

fn no_conditions() -> Conditions {
    Conditions { if_none_match: None, if_modified_since: None, if_match: None, if_unmodified_since: None }
}

fn text_entity(len: u64) -> Entity {
    Entity::new(1, len, 0, "text/plain; charset=utf-8".to_string(), true)
}

fn field(res: &Response, name: &str) -> Option<String> {
    get_header(&res.headers, name)
}

fn bytes(spec: ByteRangeSpec) -> RangeHeader {
    RangeHeader::Bytes(vec![spec])
}

#[test]
fn zero_length_file_with_range_is_not_satisfiable() {
    let range = bytes(ByteRangeSpec::FromTo(0, 0));
    assert_eq!(parse_range_header(true, Some(&range), 0), RequestedRange::NotSatisfiable);
    let res = respond_with_entity(&Method::Get, &text_entity(0), &no_conditions(), true, Some(&range));
    assert_eq!(res.status, 416);
    assert_eq!(field(&res, "Content-Range"), Some("bytes */0".to_string()));
    assert!(!matches!(res.body, Body::File { .. }));
}

#[test]
fn one_byte_file_first_byte() {
    let range = bytes(ByteRangeSpec::FromTo(0, 0));
    let res = respond_with_entity(&Method::Get, &text_entity(1), &no_conditions(), true, Some(&range));
    assert_eq!(res.status, 206);
    assert_eq!(field(&res, "Content-Range"), Some("bytes 0-0/1".to_string()));
    assert_eq!(field(&res, "Content-Length"), Some("1".to_string()));
    assert!(matches!(res.body, Body::File { start: 0, end: 1 }));
}

#[test]
fn suffix_longer_than_file_serves_whole_file() {
    let range = bytes(ByteRangeSpec::Last(5));
    assert_eq!(parse_range_header(true, Some(&range), 3), RequestedRange::Satisfiable(0, 2));
    let res = respond_with_entity(&Method::Get, &text_entity(3), &no_conditions(), true, Some(&range));
    assert_eq!(res.status, 206);
    assert_eq!(field(&res, "Content-Length"), Some("3".to_string()));
    assert!(matches!(res.body, Body::File { start: 0, end: 3 }));
}

#[test]
fn suffix_range_takes_last_bytes() {
    let range = bytes(ByteRangeSpec::Last(3));
    assert_eq!(parse_range_header(true, Some(&range), 10), RequestedRange::Satisfiable(7, 9));
}

#[test]
fn reversed_range_is_not_satisfiable() {
    // A `bytes=10-5` field does not parse, yet it is there.
    assert_eq!(parse_range_header(true, None, 20), RequestedRange::NotSatisfiable);
    let range = bytes(ByteRangeSpec::FromTo(10, 5));
    assert_eq!(parse_range_header(true, Some(&range), 20), RequestedRange::NotSatisfiable);
}

#[test]
fn range_edge_cases() {
    assert_eq!(parse_range_header(false, None, 20), RequestedRange::NoRange);
    assert_eq!(parse_range_header(true, Some(&RangeHeader::Bytes(vec![])), 20), RequestedRange::NotSatisfiable);
    let other = RangeHeader::Unregistered("items".to_string(), "1-2".to_string());
    assert_eq!(parse_range_header(true, Some(&other), 20), RequestedRange::NotSatisfiable);
    assert_eq!(parse_range_header(true, Some(&bytes(ByteRangeSpec::FromTo(5, 100))), 10), RequestedRange::Satisfiable(5, 9));
    assert_eq!(parse_range_header(true, Some(&bytes(ByteRangeSpec::AllFrom(9))), 10), RequestedRange::Satisfiable(9, 9));
    assert_eq!(parse_range_header(true, Some(&bytes(ByteRangeSpec::AllFrom(10))), 10), RequestedRange::NotSatisfiable);
    assert_eq!(parse_range_header(true, Some(&bytes(ByteRangeSpec::Last(0))), 10), RequestedRange::NotSatisfiable);
}

#[test]
fn identity_refused_small_file_is_not_gzipped() {
    let res = respond_with_entity(&Method::Get, &text_entity(11), &no_conditions(), false, None);
    let accept = parse_accept_encoding("identity;q=0").unwrap();
    assert!(!should_compress(&res, 1400, Some(&accept)));
    assert_eq!(res.status, 200);
    assert_eq!(field(&res, "Content-Encoding"), None);
}

#[test]
fn hello_txt_gzipped() {
    let entity = Entity::new(7, 11, 1_500_000_000_000, "text/plain; charset=utf-8".to_string(), true);
    let mut res = respond_with_entity(&Method::Get, &entity, &no_conditions(), false, None);
    let accept = parse_accept_encoding("gzip").unwrap();
    assert!(should_compress(&res, 1, Some(&accept)));
    compress_response(&mut res);
    assert_eq!(res.status, 200);
    assert_eq!(field(&res, "Content-Encoding"), Some("gzip".to_string()));
    assert_eq!(field(&res, "Transfer-Encoding"), Some("chunked".to_string()));
    assert_eq!(field(&res, "Content-Length"), None);
    assert!(field(&res, "ETag").unwrap().starts_with("W/\""));
    assert_eq!(field(&res, "Vary"), Some("Accept-Encoding".to_string()));
}

#[test]
fn png_not_gzipped() {
    let entity = Entity::new(8, 50_000, 0, "image/png".to_string(), false);
    let res = respond_with_entity(&Method::Get, &entity, &no_conditions(), false, None);
    let accept = parse_accept_encoding("gzip").unwrap();
    assert!(!should_compress(&res, 1400, Some(&accept)));
    assert_eq!(res.status, 200);
    assert_eq!(field(&res, "Content-Length"), Some("50000".to_string()));
    assert_eq!(field(&res, "Content-Encoding"), None);
    assert!(field(&res, "ETag").unwrap().starts_with('"'));
}

fn cors_config() -> CorsConfig {
    CorsConfig {
        origin: CorsOrigin::Few(vec!["https://x.test".to_string()]),
        methods: vec!["GET".to_string()],
        allowed_headers: vec![],
        exposed_headers: vec![],
        allow_credentials: false,
        max_age: None,
    }
}

#[test]
fn preflight_allowed_origin() {
    let res = preflight(&cors_config(), "https://x.test", Some("GET"), &vec![]);
    assert_eq!(res.status, 200);
    assert_eq!(field(&res, "Access-Control-Allow-Origin"), Some("https://x.test".to_string()));
    assert_eq!(field(&res, "Vary"), Some("Origin".to_string()));
    assert_eq!(field(&res, "Access-Control-Allow-Methods"), Some("GET".to_string()));
}

#[test]
fn preflight_refusals_keep_base_fields() {
    let refused = preflight(&cors_config(), "https://y.test", Some("GET"), &vec![]);
    assert_eq!(field(&refused, "Access-Control-Allow-Origin"), None);
    assert_eq!(field(&refused, "Vary"), Some("Origin".to_string()));
    let wrong_method = preflight(&cors_config(), "https://x.test", Some("DELETE"), &vec![]);
    assert_eq!(field(&wrong_method, "Access-Control-Allow-Origin"), None);
    let no_method = preflight(&cors_config(), "https://x.test", None, &vec![]);
    assert_eq!(field(&no_method, "Access-Control-Allow-Origin"), None);
    let header = preflight(&cors_config(), "https://x.test", Some("GET"), &vec!["X-Custom".to_string()]);
    assert_eq!(field(&header, "Access-Control-Allow-Origin"), None);
}

#[test]
fn preflight_full_grant() {
    let config = CorsConfig {
        origin: CorsOrigin::Any,
        methods: vec!["GET".to_string(), "PUT".to_string()],
        allowed_headers: vec!["X-Custom".to_string(), "Content-Type".to_string()],
        exposed_headers: vec![],
        allow_credentials: true,
        max_age: Some(600),
    };
    let res = preflight(&config, "https://z.test", Some("PUT"), &vec!["x-custom".to_string()]);
    assert_eq!(field(&res, "Access-Control-Allow-Methods"), Some("GET, PUT".to_string()));
    assert_eq!(field(&res, "Access-Control-Allow-Credentials"), Some("true".to_string()));
    assert_eq!(field(&res, "Access-Control-Max-Age"), Some("600".to_string()));
    assert_eq!(field(&res, "Access-Control-Allow-Headers"), Some("X-Custom, Content-Type".to_string()));
}

#[test]
fn cors_rewrites_allowed_responses_only() {
    let mut config = cors_config();
    config.exposed_headers = vec!["ETag".to_string()];
    let mut res = Response { status: 200, headers: vec![Header::new("Vary", "Accept-Encoding".to_string())], body: Body::Passed };
    cors_response(&config, "https://x.test", &mut res);
    assert_eq!(field(&res, "Vary"), Some("Accept-Encoding, Origin".to_string()));
    assert_eq!(field(&res, "Access-Control-Allow-Origin"), Some("https://x.test".to_string()));
    assert_eq!(field(&res, "Access-Control-Expose-Headers"), Some("ETag".to_string()));
    let mut other = Response { status: 200, headers: vec![], body: Body::Passed };
    cors_response(&config, "https://evil.test", &mut other);
    assert!(other.headers.is_empty());
}

fn site(host: &str, port: Option<u16>) -> Site {
    Site { host: vec![Host::new(host.to_string(), port)], url: None, serve: None, gzip: None, log: None, cors: None }
}

#[test]
fn unknown_host_is_not_found() {
    let sites = vec![site("example.com", None)];
    match dispatch(&sites, Some(Host::new("other.test".to_string(), None)), None) {
        Dispatch::Respond(res) => assert_eq!(res.status, 404),
        Dispatch::Site(_) => panic!("no site answers for other.test"),
    }
}

#[test]
fn dispatch_matches_hosts() {
    let sites = vec![site("example.com", None), site("localhost", Some(3000))];
    assert!(matches!(dispatch(&sites, Some(Host::new("EXAMPLE.com".to_string(), Some(80))), None), Dispatch::Site(0)));
    assert!(matches!(dispatch(&sites, Some(Host::new("localhost".to_string(), Some(3000))), None), Dispatch::Site(1)));
    let absolute = Some(Host::new("localhost".to_string(), Some(3000)));
    assert!(matches!(dispatch(&sites, Some(Host::new("example.com".to_string(), None)), absolute), Dispatch::Site(1)));
    match dispatch(&sites, None, None) {
        Dispatch::Respond(res) => {
            assert_eq!(res.status, 400);
            assert!(matches!(res.body, Body::Text(ref t) if t == "missing host header"));
        },
        Dispatch::Site(_) => panic!("a request without Host is refused"),
    }
}

#[test]
fn server_field_is_set() {
    let mut res = Response { status: 200, headers: vec![Header::new("server", "other".to_string())], body: Body::Empty };
    finish(&mut res);
    assert_eq!(res.headers.len(), 1);
    assert_eq!(field(&res, "Server"), Some("prox".to_string()));
}

fn serve_config() -> ServeConfig {
    ServeConfig { root: "/srv/www".to_string(), browse: false, dotfiles: false }
}

#[test]
fn climbing_path_is_not_found() {
    match plan_request(&serve_config(), &Method::Get, "/../etc/passwd") {
        ServePlan::Respond(res) => assert_eq!(res.status, 404),
        _ => panic!("a climbing path is refused"),
    }
}

#[test]
fn serve_plans() {
    assert!(matches!(plan_request(&serve_config(), &Method::Get, "/a/b.txt"), ServePlan::Open(ref p) if p == "/srv/www/a/b.txt"));
    assert!(matches!(plan_request(&serve_config(), &Method::Get, "/.env"), ServePlan::Descend));
    match plan_request(&serve_config(), &Method::Post, "/a") {
        ServePlan::Respond(res) => {
            assert_eq!(res.status, 405);
            assert!(matches!(res.body, Body::Text(ref t) if t == "Only GET, HEAD, OPTIONS allowed"));
            assert_eq!(field(&res, "Allow"), Some("GET, HEAD, OPTIONS".to_string()));
        },
        _ => panic!("POST is not served"),
    }
    match plan_request(&serve_config(), &Method::Get, "/%FF") {
        ServePlan::Respond(res) => assert_eq!(res.status, 404),
        _ => panic!("invalid UTF-8 is refused"),
    }
}

#[test]
fn unreachable_upstream_times_out() {
    let req = Request { method: Method::Get, uri: "/x".to_string(), headers: vec![] };
    let upstream = "http://127.0.0.1:65530".to_string();
    match plan_proxy(Some(&upstream), req, "/x", None, "10.0.0.1") {
        ProxyPlan::Forward(fwd) => assert_eq!(fwd.uri, "http://127.0.0.1:65530/x"),
        ProxyPlan::Respond(_) => panic!("the upstream URL resolves"),
    }
    assert_eq!(proxy_outcome(UpstreamEvent::TimedOut).status, 504);
    assert_eq!(proxy_outcome(UpstreamEvent::Failed).status, 500);
}

#[test]
fn proxy_without_upstream_is_not_found() {
    let req = Request { method: Method::Get, uri: "/x".to_string(), headers: vec![] };
    assert!(matches!(plan_proxy(None, req, "/x", None, "10.0.0.1"), ProxyPlan::Respond(ref r) if r.status == 404));
    let req = Request { method: Method::Get, uri: "/x".to_string(), headers: vec![] };
    let bad = "not a url".to_string();
    assert!(matches!(plan_proxy(Some(&bad), req, "/x", None, "10.0.0.1"), ProxyPlan::Respond(ref r) if r.status == 404));
}

#[test]
fn proxy_joins_query() {
    let req = Request { method: Method::Get, uri: "/a".to_string(), headers: vec![] };
    let upstream = "http://localhost:3001/base/".to_string();
    match plan_proxy(Some(&upstream), req, "/a/b", Some("q=1"), "10.0.0.1") {
        ProxyPlan::Forward(fwd) => assert_eq!(fwd.uri, "http://localhost:3001/a/b?q=1"),
        ProxyPlan::Respond(_) => panic!("the upstream URL resolves"),
    }
}

#[test]
fn hop_headers_are_stripped_both_ways() {
    let req = Request {
        method: Method::Get,
        uri: "/".to_string(),
        headers: vec![
            Header::new("Connection", "close".to_string()),
            Header::new("keep-alive", "timeout=5".to_string()),
            Header::new("Accept", "*/*".to_string()),
            Header::new("X-Forwarded-For", "1.2.3.4".to_string()),
        ],
    };
    let fwd = make_proxy_request(req, "http://up/".to_string(), "5.6.7.8");
    assert_eq!(fwd.headers.len(), 2);
    assert_eq!(get_header(&fwd.headers, "Accept"), Some("*/*".to_string()));
    assert_eq!(get_header(&fwd.headers, "X-Forwarded-For"), Some("1.2.3.4, 5.6.7.8".to_string()));
    let res = Response {
        status: 201,
        headers: vec![Header::new("Transfer-Encoding", "chunked".to_string()), Header::new("Content-Type", "text/plain".to_string())],
        body: Body::Passed,
    };
    let back = proxy_outcome(UpstreamEvent::Answered(res));
    assert_eq!(back.status, 201);
    assert_eq!(back.headers.len(), 1);
    assert_eq!(field(&back, "Content-Type"), Some("text/plain".to_string()));
}

#[test]
fn forwarded_for_created_when_missing() {
    let req = Request { method: Method::Get, uri: "/".to_string(), headers: vec![] };
    let fwd = make_proxy_request(req, "http://up/".to_string(), "::1");
    assert_eq!(get_header(&fwd.headers, "x-forwarded-for"), Some("::1".to_string()));
}

#[test]
fn conditional_requests() {
    let entity = text_entity(11);
    let tag = entity.etag(&ETagKind::Strong);
    let mut c = no_conditions();
    c.if_none_match = Some(ETagCondition::Items(vec![EntityTag::weak(tag.tag.clone())]));
    let res = respond_with_entity(&Method::Get, &entity, &c, false, None);
    assert_eq!(res.status, 304);
    assert_eq!(field(&res, "Content-Length"), Some("0".to_string()));
    assert_eq!(field(&res, "ETag"), Some(format!("\"{}\"", tag.tag)));

    let mut c = no_conditions();
    c.if_none_match = Some(ETagCondition::Any);
    assert_eq!(respond_with_entity(&Method::Get, &entity, &c, false, None).status, 304);

    let mut c = no_conditions();
    c.if_modified_since = Some(0);
    assert_eq!(respond_with_entity(&Method::Get, &entity, &c, false, None).status, 304);

    let mut c = no_conditions();
    c.if_match = Some(ETagCondition::Items(vec![EntityTag::strong("other".to_string())]));
    let res = respond_with_entity(&Method::Get, &entity, &c, false, None);
    assert_eq!(res.status, 412);
    assert_eq!(field(&res, "Content-Length"), Some("0".to_string()));

    let mut c = no_conditions();
    c.if_match = Some(ETagCondition::Items(vec![EntityTag::weak(tag.tag.clone())]));
    assert_eq!(respond_with_entity(&Method::Get, &entity, &c, false, None).status, 412);

    let mut c = no_conditions();
    c.if_match = Some(ETagCondition::Items(vec![EntityTag::strong(tag.tag.clone())]));
    c.if_unmodified_since = Some(0);
    assert_eq!(respond_with_entity(&Method::Get, &entity, &c, false, None).status, 200);
}

#[test]
fn full_response_headers_and_head() {
    let entity = text_entity(11);
    let res = respond_with_entity(&Method::Get, &entity, &no_conditions(), false, None);
    let names: Vec<&str> = res.headers.iter().map(|h| h.name.as_str()).collect();
    assert_eq!(names, vec!["ETag", "Accept-Ranges", "Last-Modified", "Content-Type", "Content-Length"]);
    assert_eq!(field(&res, "ETag"), Some("\"#$.$!\"".to_string()));
    assert_eq!(field(&res, "Last-Modified"), Some("Thu, 01 Jan 1970 00:00:00 GMT".to_string()));
    assert_eq!(field(&res, "Accept-Ranges"), Some("bytes".to_string()));
    assert!(matches!(res.body, Body::File { start: 0, end: 11 }));
    let head = respond_with_entity(&Method::Head, &entity, &no_conditions(), false, None);
    assert_eq!(head.status, 200);
    assert_eq!(field(&head, "Content-Length"), Some("11".to_string()));
    assert!(matches!(head.body, Body::Empty));
}

#[test]
fn gzip_chunk_is_a_gzip_member() {
    let data = b"hello world hello world".to_vec();
    let packed = gzip_chunk(&data);
    assert_ne!(packed, data);
    assert_eq!(&packed[..2], &[0x1f, 0x8b]);
    let mut out = Vec::new();
    flate2::read::GzDecoder::new(&packed[..]).read_to_end(&mut out).unwrap();
    assert_eq!(out, data);
}

#[test]
fn gzip_gating() {
    let entity = text_entity(2000);
    let res = respond_with_entity(&Method::Get, &entity, &no_conditions(), false, None);
    let gzip = parse_accept_encoding("gzip").unwrap();
    assert!(should_compress(&res, 1400, Some(&gzip)));
    assert!(!should_compress(&res, 2001, Some(&gzip)));
    assert!(!should_compress(&res, 1400, None));
    let not_found = prox::response::not_found();
    assert!(!should_compress(&not_found, 0, Some(&gzip)));
    let unknown_length = Response { status: 200, headers: vec![Header::new("Content-Type", "text/html".to_string())], body: Body::Passed };
    assert!(should_compress(&unknown_length, 1400, Some(&gzip)));
    let untyped = Response { status: 200, headers: vec![], body: Body::Passed };
    assert!(!should_compress(&untyped, 0, Some(&gzip)));
    let png = Response { status: 200, headers: vec![Header::new("Content-Type", "image/png".to_string())], body: Body::Passed };
    assert!(!should_compress(&png, 0, Some(&gzip)));
}

#[test]
fn compress_keeps_vary_star_and_weak_tags() {
    let mut res = Response {
        status: 200,
        headers: vec![Header::new("Vary", "*".to_string()), Header::new("ETag", "W/\"x\"".to_string())],
        body: Body::Passed,
    };
    compress_response(&mut res);
    assert_eq!(field(&res, "Vary"), Some("*".to_string()));
    assert_eq!(field(&res, "ETag"), Some("W/\"x\"".to_string()));
}

fn item(name: &str, is_dir: bool) -> FolderItem {
    FolderItem { filename: name.to_string(), href: format!("/{}", name), is_dir, is_image: false, size: 3, created_ms: None }
}

#[test]
fn listing_order_and_filter() {
    let items = vec![item("b.txt", false), item(".hidden", false), item("Zdir", true), item("A.txt", false), item("adir", true)];
    let shown = visible_items(items, false);
    assert_eq!(shown.len(), 4);
    let sorted = sort_listing(shown);
    let names: Vec<&str> = sorted.iter().map(|i| i.filename.as_str()).collect();
    assert_eq!(names, vec!["adir", "Zdir", "A.txt", "b.txt"]);
    assert_eq!(visible_items(vec![item(".env", false)], true).len(), 1);
}

#[test]
fn listing_parent_and_rows() {
    assert_eq!(parent_href(""), None);
    assert_eq!(parent_href("a"), Some("/".to_string()));
    assert_eq!(parent_href("a/b/"), Some("/a".to_string()));
    let row = listing_row(&FolderItem { filename: "x.png".to_string(), href: "/x.png".to_string(), is_dir: false, is_image: true, size: 42, created_ms: Some(7) });
    assert_eq!(row, "\n<tr><td><a href=\"/x.png\" class=\"img\">x.png<td>42<td class=\"created\">7");
    let dir = listing_row(&item("d", true));
    assert!(dir.ends_with("<td>\u{2014}<td class=\"created\">\u{2014}"));
}

#[test]
fn config_defaults() {
    assert_eq!(Timeouts::default().connect_ms, 5000);
    assert_eq!(prox::config::default_bind(), "127.0.0.1:3000");
    assert_eq!(prox::gzip::default_gzip_threshold(), 1400);
    let server = Server { bind: prox::config::default_bind(), timeouts: Timeouts::default() };
    assert_eq!(server.bind, "127.0.0.1:3000");
}

#[test]
fn duplicate_hosts_are_refused() {
    let sites = vec![site("example.com", None), site("localhost", Some(3000))];
    assert_eq!(check_unique_hosts(&sites), Ok(()));
    let sites = vec![site("example.com", None), site("EXAMPLE.com", Some(80))];
    assert_eq!(check_unique_hosts(&sites), Err((0, 0)));
    let mut twice = site("a.test", None);
    twice.host.push(Host::new("a.test".to_string(), Some(80)));
    assert_eq!(check_unique_hosts(&vec![twice]), Err((0, 0)));
}

#[test]
fn climbing_path_refused_by_proxy_too() {
    let upstream = "http://127.0.0.1:65530".to_string();
    for p in ["/../etc/passwd", "/a/%2e%2e/%2e%2e/etc/passwd", "/./x"] {
        let req = Request { method: Method::Get, uri: p.to_string(), headers: vec![] };
        assert!(matches!(plan_proxy(Some(&upstream), req, p, None, "10.0.0.1"), ProxyPlan::Respond(ref r) if r.status == 404));
    }
}

#[test]
fn listing_orders_by_unicode_lower_case() {
    let sorted = sort_listing(vec![item("\u{c4}z", false), item("\u{e4}a", false)]);
    let names: Vec<&str> = sorted.iter().map(|i| i.filename.as_str()).collect();
    assert_eq!(names, vec!["\u{e4}a", "\u{c4}z"]);
}

#[test]
fn browse_plan_carries_relative_path() {
    let cfg = ServeConfig { root: "/srv/www".to_string(), browse: true, dotfiles: false };
    match plan_browse(Some(&cfg), &Method::Get, "/docs/a/") {
        BrowsePlan::List(dir, rel) => {
            assert_eq!(dir, "/srv/www/docs/a/");
            assert_eq!(rel, "docs/a/");
        },
        _ => panic!("a listing is planned"),
    }
    assert!(matches!(plan_browse(Some(&serve_config()), &Method::Get, "/docs"), BrowsePlan::Descend));
}

#[test]
fn listing_page_parts() {
    let items = vec![item("d", true), item("f.txt", false)];
    let parts = prox::browse::listing_parts(&items, "docs", "", "");
    assert_eq!(parts.len(), 4);
    assert!(parts[0].contains("<title>/docs</title>"));
    assert!(parts[0].contains("href=\"/\">.."));
    assert_eq!(parts[1], listing_row(&items[0]));
    assert_eq!(parts[3], "<script></script>");
    let root = prox::browse::listing_parts(&vec![], "", "", "");
    assert_eq!(root.len(), 2);
    assert!(!root[0].contains(".."));
}

#[test]
fn missing_site_gets_plain_not_found() {
    match dispatch(&vec![], Some(Host::new("a.test".to_string(), None)), None) {
        Dispatch::Respond(res) => {
            assert_eq!(res.status, 404);
            assert!(matches!(res.body, Body::Text(ref t) if t == "Not found"));
            assert_eq!(field(&res, "Content-Length"), Some("9".to_string()));
        },
        Dispatch::Site(_) => panic!("no sites"),
    }
    match dispatch(&vec![], None, None) {
        Dispatch::Respond(res) => assert_eq!(field(&res, "Content-Length"), Some("19".to_string())),
        Dispatch::Site(_) => panic!("no Host"),
    }
}
