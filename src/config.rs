//! Per-site configuration, as handed over by whoever loads it.

use vstd::prelude::*;

use crate::cors::CorsConfig;
use crate::gzip::GzipConfig;
use crate::host::{same_host, Host};
use crate::serve::ServeConfig;
use crate::text::{decimal, decimal_of};

verus! {

/// How long to wait for an upstream server to start answering.
pub struct Timeouts {
    /// In milliseconds.
    pub connect_ms: u64,
}

impl Timeouts {
    pub fn default() -> (r: Timeouts)
        ensures
            r.connect_ms == 5000,
    {
        Timeouts { connect_ms: 5000 }
    }
}

/// Listener settings.
pub struct Server {
    /// `host:port` to listen on.
    pub bind: String,
    pub timeouts: Timeouts,
}

impl Server {
    /// Listening on `127.0.0.1:3000`, with the default timeouts.
    pub fn default() -> (r: Server)
        ensures
            r.bind@ == "127.0.0.1:"@ + decimal_of(3000),
            r.timeouts.connect_ms == 5000,
    {
        Server { bind: default_bind(), timeouts: Timeouts::default() }
    }
}

pub fn default_port() -> (r: u32)
    ensures
        r == 3000,
{
    3000
}

pub fn default_bind() -> (r: String)
    ensures
        r@ == "127.0.0.1:"@ + decimal_of(3000),
{
    let mut s = "127.0.0.1:".to_owned();
    s.append(decimal(default_port() as u64).as_str());
    s
}

/// Access-log settings of a site.
pub struct LogConfig {
    pub format: String,
}

/// The Common Log Format.
pub fn default_log_format() -> (r: String)
    ensures
        r@ == ":remote_host - - [:date_clf] \":method :url :proto\" :status :bytes_tx"@,
{
    ":remote_host - - [:date_clf] \":method :url :proto\" :status :bytes_tx".to_owned()
}

/// A virtual host: the hosts it answers for and its stages' settings.
pub struct Site {
    pub host: Vec<Host>,
    /// Upstream base URL, e.g. `http://localhost:3001`.
    pub url: Option<String>,
    pub serve: Option<ServeConfig>,
    pub gzip: Option<GzipConfig>,
    pub log: Option<LogConfig>,
    pub cors: Option<CorsConfig>,
}

/// Everything the server is configured with.
pub struct Config {
    pub server: Server,
    pub sites: Vec<Site>,
}

/// Site `i` answers for `host`.
pub open spec fn site_has_host(sites: Seq<Site>, i: int, host: &Host) -> bool {
    exists|k: int| 0 <= k < sites[i].host@.len() && same_host(&(#[trigger] sites[i].host@[k]), host)
}

fn site_matches(site: &Site, host: &Host) -> (r: bool)
    ensures
        r == exists|k: int| 0 <= k < site.host@.len() && same_host(&(#[trigger] site.host@[k]), host),
{
    let mut k: usize = 0;
    while k < site.host.len()
        invariant
            k <= site.host@.len(),
            forall|j: int| 0 <= j < k ==> !same_host(&(#[trigger] site.host@[j]), host),
        decreases site.host@.len() - k,
    {
        if site.host[k].matches(host) {
            return true;
        }
        k += 1;
    }
    false
}

/// The first site that answers for `host`.
pub fn find_site(sites: &Vec<Site>, host: &Host) -> (r: Option<usize>)
    ensures
        r matches Some(i) ==> i < sites@.len() && site_has_host(sites@, i as int, host) && forall|j: int|
            0 <= j < i ==> !site_has_host(sites@, j, host),
        r.is_none() ==> forall|j: int| 0 <= j < sites@.len() ==> !site_has_host(sites@, j, host),
{
    let mut i: usize = 0;
    while i < sites.len()
        invariant
            i <= sites@.len(),
            forall|j: int| 0 <= j < i ==> !site_has_host(sites@, j, host),
        decreases sites@.len() - i,
    {
        if site_matches(&sites[i], host) {
            return Some(i);
        }
        i += 1;
    }
    None
}

/// `(i, k)` names host `k` of site `i`.
pub open spec fn is_entry(sites: Seq<Site>, i: int, k: int) -> bool {
    0 <= i < sites.len() && 0 <= k < sites[i].host@.len()
}

/// No other host entry names the same site as entry `(i, k)`.
pub open spec fn entry_clear(sites: Seq<Site>, i: int, k: int) -> bool {
    forall|j: int, l: int|
        is_entry(sites, j, l) && (j != i || l != k) ==> !#[trigger] same_host(&sites[i].host@[k], &sites[j].host@[l])
}

/// Every configured host names a different site: the lookup by host is a function.
pub open spec fn hosts_unique(sites: Seq<Site>) -> bool {
    forall|i: int, k: int| is_entry(sites, i, k) ==> #[trigger] entry_clear(sites, i, k)
}

fn check_entry(sites: &Vec<Site>, i: usize, k: usize) -> (r: bool)
    requires
        is_entry(sites@, i as int, k as int),
    ensures
        r == entry_clear(sites@, i as int, k as int),
{
    let h = &sites[i].host[k];
    let mut j: usize = 0;
    while j < sites.len()
        invariant
            j <= sites@.len(),
            is_entry(sites@, i as int, k as int),
            *h == sites@[i as int].host@[k as int],
            forall|a: int, l: int|
                0 <= a < j && is_entry(sites@, a, l) && (a != i || l != k) ==> !#[trigger] same_host(
                    &sites@[i as int].host@[k as int],
                    &sites@[a].host@[l],
                ),
        decreases sites@.len() - j,
    {
        let mut l: usize = 0;
        while l < sites[j].host.len()
            invariant
                j < sites@.len(),
                l <= sites@[j as int].host@.len(),
                is_entry(sites@, i as int, k as int),
                *h == sites@[i as int].host@[k as int],
                forall|a: int, m: int|
                    0 <= a < j && is_entry(sites@, a, m) && (a != i || m != k) ==> !#[trigger] same_host(
                        &sites@[i as int].host@[k as int],
                        &sites@[a].host@[m],
                    ),
                forall|m: int|
                    0 <= m < l && (j != i || m != k) ==> !#[trigger] same_host(
                        &sites@[i as int].host@[k as int],
                        &sites@[j as int].host@[m],
                    ),
            decreases sites@[j as int].host@.len() - l,
        {
            if (j != i || l != k) && h.matches(&sites[j].host[l]) {
                return false;
            }
            l += 1;
        }
        j += 1;
    }
    true
}

/// `Ok` where every host names a different site; else the first entry
/// `(site, host)` that another entry shares.
pub fn check_unique_hosts(sites: &Vec<Site>) -> (r: Result<(), (usize, usize)>)
    ensures
        r is Ok == hosts_unique(sites@),
        r matches Err((i, k)) ==> is_entry(sites@, i as int, k as int) && !entry_clear(sites@, i as int, k as int),
{
    let mut i: usize = 0;
    while i < sites.len()
        invariant
            i <= sites@.len(),
            forall|a: int, m: int| 0 <= a < i && is_entry(sites@, a, m) ==> #[trigger] entry_clear(sites@, a, m),
        decreases sites@.len() - i,
    {
        let mut k: usize = 0;
        while k < sites[i].host.len()
            invariant
                i < sites@.len(),
                k <= sites@[i as int].host@.len(),
                forall|a: int, m: int| 0 <= a < i && is_entry(sites@, a, m) ==> #[trigger] entry_clear(sites@, a, m),
                forall|m: int| 0 <= m < k ==> #[trigger] entry_clear(sites@, i as int, m),
            decreases sites@[i as int].host@.len() - k,
        {
            if !check_entry(sites, i, k) {
                return Err((i, k));
            }
            k += 1;
        }
        i += 1;
    }
    Ok(())
}

} // verus!
