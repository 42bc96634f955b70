//! Virtual-host names: a hostname and an optional port.

use vstd::prelude::*;

use crate::http::{eq_ignore_case, same_name};
use crate::text::{decimal, decimal_of};

verus! {

/// A `Host` value; hostnames compare without regard to ASCII case and a
/// missing port stands for 80.
#[derive(Clone, Debug)]
pub struct Host {
    pub hostname: String,
    pub port: Option<u16>,
}

/// The port a host names, 80 where it names none.
pub open spec fn effective_port(port: Option<u16>) -> u16 {
    match port {
        Some(p) => p,
        None => 80,
    }
}

/// Two hosts name the same site.
pub open spec fn same_host(a: &Host, b: &Host) -> bool {
    same_name(a.hostname@, b.hostname@) && effective_port(a.port) == effective_port(b.port)
}

impl Host {
    pub fn new(hostname: String, port: Option<u16>) -> (r: Host)
        ensures
            r.hostname@ == hostname@,
            r.port == port,
    {
        Host { hostname, port }
    }

    pub fn hostname(&self) -> (r: &str)
        ensures
            r@ == self.hostname@,
    {
        self.hostname.as_str()
    }

    pub fn port(&self) -> (r: Option<&u16>)
        ensures
            r.is_none() == self.port.is_none(),
            r matches Some(p) ==> self.port == Some(*p),
    {
        match &self.port {
            Some(p) => Some(p),
            None => None,
        }
    }

    /// `hostname`, or `hostname:port` where a port is given.
    pub fn to_string(&self) -> (r: String)
        ensures
            r@ == (match self.port {
                None => self.hostname@,
                Some(p) => self.hostname@ + seq![':'] + decimal_of(p as nat),
            }),
    {
        let mut s = self.hostname.clone();
        match self.port {
            None => {},
            Some(p) => {
                s.append(":");
                s.append(decimal(p as u64).as_str());
                proof {
                    reveal_strlit(":");
                }
            },
        }
        s
    }

    /// Whether `self` and `other` name the same site.
    pub fn matches(&self, other: &Host) -> (r: bool)
        ensures
            r == same_host(self, other),
    {
        let p: u16 = match self.port {
            Some(p) => p,
            None => 80,
        };
        let q: u16 = match other.port {
            Some(q) => q,
            None => 80,
        };
        p == q && eq_ignore_case(self.hostname.as_str(), other.hostname.as_str())
    }
}

/// A host written in configuration did not parse.
#[derive(Clone, Copy, Debug, PartialEq, Eq, Structural)]
pub struct HostParseError;

impl HostParseError {
    pub fn description(&self) -> (r: String)
        ensures
            r@ == "host must be \"ipaddress[:port]\" or \"domain[:port]\""@,
    {
        "host must be \"ipaddress[:port]\" or \"domain[:port]\"".to_owned()
    }
}

} // verus!
