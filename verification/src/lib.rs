//! Trusted proxy address ranges: a set of IPv4 and IPv6 CIDR blocks that
//! answers whether the peer of a connection may be believed when it states
//! the address of the client behind it.

pub mod addr;
pub mod blocks;
pub mod cidr;
pub mod combiner;
pub mod laws;
pub mod response;
pub mod trusted_ips;
pub mod word;

pub use crate::addr::{IpAddr, Ipv4Able, Ipv4Addr, Ipv6Able, Ipv6Addr};
pub use crate::cidr::{CidrError, IpCidr, Ipv4Cidr, Ipv6Cidr};
pub use crate::response::{CfIpsFetchErr, CfIpsResponse, CfIpsResult, CF_URL_IPS};
pub use crate::trusted_ips::TrustedIps;
