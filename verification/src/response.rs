//! The answer of the service that publishes the proxy ranges, once decoded.

use vstd::prelude::*;
use crate::addr::IpAddr;
use crate::cidr::{Ipv4Cidr, Ipv6Cidr};

verus! {

/// Where the canonical list of Cloudflare's address ranges is published.
pub const CF_URL_IPS: &'static str = "https://api.cloudflare.com/client/v4/ips";

/// Why no set of ranges could be had from the service.
#[derive(Debug)]
#[non_exhaustive]
pub enum CfIpsFetchErr {
    /// The request failed, the answer could not be decoded, or the service
    /// said that it had failed.
    Fetch,
}

impl CfIpsFetchErr {
    /// The error in words.
    pub fn to_string(&self) -> (r: String)
        ensures
            r@ == "failed to fetch"@,
    {
        match self {
            CfIpsFetchErr::Fetch => "failed to fetch".to_owned(),
        }
    }
}

/// The ranges of a successful answer.
#[derive(Debug)]
pub struct CfIpsResult {
    pub ipv4_cidrs: Vec<Ipv4Cidr>,
    pub ipv6_cidrs: Vec<Ipv6Cidr>,
}

impl CfIpsResult {
    /// The addresses that lie in one of the answer's blocks.
    pub open spec fn addrs(self) -> Set<IpAddr> {
        Set::new(
            |ip: IpAddr|
                (exists|i: int|
                    0 <= i < self.ipv4_cidrs@.len() && (#[trigger] self.ipv4_cidrs@[i]).has(ip))
                    || (exists|i: int|
                    0 <= i < self.ipv6_cidrs@.len() && (#[trigger] self.ipv6_cidrs@[i]).has(ip)),
        )
    }
}

/// A decoded answer: the ranges, or the service's word that it failed.
#[derive(Debug)]
pub enum CfIpsResponse {
    Success { result: CfIpsResult },
    Failure { success: bool },
}

} // verus!
