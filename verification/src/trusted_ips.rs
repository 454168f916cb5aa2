//! The set of trusted addresses.

use vstd::prelude::*;
use cidr_utils::utils::IpCidrCombiner;
use crate::addr::{word_of_octets, IpAddr};
use crate::blocks::{
    canonical,
    covered,
    holds,
    lemma_canonical_unique,
    lemma_covered_next,
    valid,
};
use crate::cidr::{blocks_v4, blocks_v6, ipv4_addrs, IpCidr, Ipv4Cidr, Ipv6Cidr};
use crate::combiner::{
    coalesced,
    combiner_contains,
    combiner_get_ipv4_cidrs,
    combiner_get_ipv6_cidrs,
    combiner_ipv4,
    combiner_ipv6,
    combiner_new,
    combiner_push,
    combiner_with_capacity,
};
use crate::response::{CfIpsFetchErr, CfIpsResponse};
use crate::word::mask32;

verus! {

/// The addresses that the blocks of the two lists hold, each list for its
/// own family.
pub open spec fn cover_set(v4: Seq<(u32, u8)>, v6: Seq<(u128, u8)>) -> Set<IpAddr> {
    Set::new(
        |ip: IpAddr|
            match ip {
                IpAddr::V4(a) => covered(v4, a.bits),
                IpAddr::V6(a) => covered(v6, a.bits),
            },
    )
}

/// The loopback block, `127.0.0.0/8`.
pub open spec fn loopback_block() -> (u32, u8) {
    (word_of_octets(127, 0, 0, 0), 8)
}

/// The private block `10.0.0.0/8`.
pub open spec fn private_block_10() -> (u32, u8) {
    (word_of_octets(10, 0, 0, 0), 8)
}

/// The private block `192.168.0.0/16`.
pub open spec fn private_block_192_168() -> (u32, u8) {
    (word_of_octets(192, 168, 0, 0), 16)
}

/// Trusted IP ranges.
///
/// The set of addresses whose word on the client's address is believed: a
/// connection's peer is trusted if and only if its address is in the set. A
/// new set is empty and trusts nobody; ranges are added, never taken away.
#[derive(Debug)]
pub struct TrustedIps {
    pub(crate) cidr_ranges: IpCidrCombiner,
}

impl View for TrustedIps {
    type V = Set<IpAddr>;

    /// The trusted addresses.
    open spec fn view(&self) -> Set<IpAddr> {
        cover_set(self.ipv4_blocks(), self.ipv6_blocks())
    }
}

/// Pushes the blocks of a list, in their order.
fn push_ipv4_cidrs(combiner: &mut IpCidrCombiner, cidrs: &Vec<Ipv4Cidr>)
    requires
        coalesced(*old(combiner)),
    ensures
        coalesced(*final(combiner)),
        combiner_ipv6(*final(combiner)) == combiner_ipv6(*old(combiner)),
        forall|a: u32|
            covered(combiner_ipv4(*final(combiner)), a) <==> covered(
                combiner_ipv4(*old(combiner)),
                a,
            ) || covered(blocks_v4(cidrs@), a),
{
    let ghost blocks = blocks_v4(cidrs@);
    let mut i: usize = 0;
    while i < cidrs.len()
        invariant
            i <= cidrs.len(),
            blocks == blocks_v4(cidrs@),
            coalesced(*combiner),
            combiner_ipv6(*combiner) == combiner_ipv6(*old(combiner)),
            forall|a: u32|
                covered(combiner_ipv4(*combiner), a) <==> covered(combiner_ipv4(*old(combiner)), a)
                    || covered(blocks.take(i as int), a),
        decreases cidrs.len() - i,
    {
        let cidr = cidrs[i];
        proof {
            use_type_invariant(&cidr);
            assert(blocks[i as int] == cidr@);
            assert forall|a: u32|
                covered(blocks.take(i + 1), a) <==> covered(blocks.take(i as int), a) || holds(
                    cidr@,
                    a,
                ) by {
                lemma_covered_next(blocks, i as int, a);
            }
        }
        combiner_push(combiner, IpCidr::V4(cidr));
        i = i + 1;
    }
    assert(blocks.take(i as int) == blocks);
}

/// Pushes the blocks of a list, in their order.
fn push_ipv6_cidrs(combiner: &mut IpCidrCombiner, cidrs: &Vec<Ipv6Cidr>)
    requires
        coalesced(*old(combiner)),
    ensures
        coalesced(*final(combiner)),
        combiner_ipv4(*final(combiner)) == combiner_ipv4(*old(combiner)),
        forall|a: u128|
            covered(combiner_ipv6(*final(combiner)), a) <==> covered(
                combiner_ipv6(*old(combiner)),
                a,
            ) || covered(blocks_v6(cidrs@), a),
{
    let ghost blocks = blocks_v6(cidrs@);
    let mut i: usize = 0;
    while i < cidrs.len()
        invariant
            i <= cidrs.len(),
            blocks == blocks_v6(cidrs@),
            coalesced(*combiner),
            combiner_ipv4(*combiner) == combiner_ipv4(*old(combiner)),
            forall|a: u128|
                covered(combiner_ipv6(*combiner), a) <==> covered(combiner_ipv6(*old(combiner)), a)
                    || covered(blocks.take(i as int), a),
        decreases cidrs.len() - i,
    {
        let cidr = cidrs[i];
        proof {
            use_type_invariant(&cidr);
            assert(blocks[i as int] == cidr@);
            assert forall|a: u128|
                covered(blocks.take(i + 1), a) <==> covered(blocks.take(i as int), a) || holds(
                    cidr@,
                    a,
                ) by {
                lemma_covered_next(blocks, i as int, a);
            }
        }
        combiner_push(combiner, IpCidr::V6(cidr));
        i = i + 1;
    }
    assert(blocks.take(i as int) == blocks);
}

impl TrustedIps {
    /// What holds of every set: the blocks of each family are one coalesced
    /// list.
    #[verifier::type_invariant]
    pub open spec fn wf(self) -> bool {
        canonical(self.ipv4_blocks()) && canonical(self.ipv6_blocks())
    }

    /// The IPv4 blocks that the set is kept as, each as its prefix and its
    /// length.
    pub closed spec fn ipv4_blocks(self) -> Seq<(u32, u8)> {
        combiner_ipv4(self.cidr_ranges)
    }

    /// The IPv6 blocks that the set is kept as, each as its prefix and its
    /// length.
    pub closed spec fn ipv6_blocks(self) -> Seq<(u128, u8)> {
        combiner_ipv6(self.cidr_ranges)
    }

    /// Construct new empty set of trusted IPs.
    pub fn new() -> (r: Self)
        ensures
            r.wf(),
            r@ == Set::<IpAddr>::empty(),
            r.ipv4_blocks() == Seq::<(u32, u8)>::empty(),
            r.ipv6_blocks() == Seq::<(u128, u8)>::empty(),
    {
        let r = Self { cidr_ranges: combiner_new() };
        assert(r@ =~= Set::<IpAddr>::empty());
        r
    }

    /// Add trusted IP range to set.
    pub fn add_ip_range(self, cidr: IpCidr) -> (r: Self)
        ensures
            r.wf(),
            r@ == self@.union(cidr.addrs()),
    {
        proof {
            use_type_invariant(&self);
        }
        match cidr {
            IpCidr::V4(c) => {
                proof {
                    use_type_invariant(&c);
                }
            },
            IpCidr::V6(c) => {
                proof {
                    use_type_invariant(&c);
                }
            },
        }
        let mut cidr_ranges = self.cidr_ranges;
        combiner_push(&mut cidr_ranges, cidr);
        let r = Self { cidr_ranges };
        assert(r@ =~= self@.union(cidr.addrs()));
        r
    }

    /// Adds the `127.0.0.0/8` IP range to this set.
    pub fn add_loopback_ips(self) -> (r: Self)
        ensures
            r.wf(),
            r@ == self@.union(ipv4_addrs(loopback_block())),
    {
        assert(word_of_octets(127, 0, 0, 0) & mask32(8) == word_of_octets(127, 0, 0, 0))
            by (bit_vector);
        self.add_ip_range(IpCidr::V4(Ipv4Cidr::from_prefix_and_bits([127, 0, 0, 0], 8).unwrap()))
    }

    /// Adds the `10.0.0.0/8` and `192.168.0.0/16` IP ranges to this set.
    pub fn add_private_ips(self) -> (r: Self)
        ensures
            r.wf(),
            r@ == self@.union(ipv4_addrs(private_block_10())).union(
                ipv4_addrs(private_block_192_168()),
            ),
    {
        assert(word_of_octets(10, 0, 0, 0) & mask32(8) == word_of_octets(10, 0, 0, 0))
            by (bit_vector);
        assert(word_of_octets(192, 168, 0, 0) & mask32(16) == word_of_octets(192, 168, 0, 0))
            by (bit_vector);
        self.add_ip_range(
            IpCidr::V4(Ipv4Cidr::from_prefix_and_bits([10, 0, 0, 0], 8).unwrap()),
        ).add_ip_range(IpCidr::V4(Ipv4Cidr::from_prefix_and_bits([192, 168, 0, 0], 16).unwrap()))
    }

    /// Returns true if `ip` is trustworthy according to this set.
    pub fn contains(&self, ip: IpAddr) -> (r: bool)
        ensures
            r == self@.contains(ip),
    {
        combiner_contains(&self.cidr_ranges, ip)
    }

    /// The set's IPv4 blocks: the one coalesced list that covers the set's
    /// IPv4 addresses.
    pub fn ipv4_cidrs(&self) -> (r: Vec<Ipv4Cidr>)
        ensures
            self.wf(),
            blocks_v4(r@) == self.ipv4_blocks(),
    {
        proof {
            use_type_invariant(self);
        }
        let blocks = combiner_get_ipv4_cidrs(&self.cidr_ranges);
        let mut cidrs: Vec<Ipv4Cidr> = Vec::new();
        let mut i: usize = 0;
        while i < blocks.len()
            invariant
                i <= blocks.len(),
                blocks@ == self.ipv4_blocks(),
                canonical(blocks@),
                cidrs@.len() == i,
                blocks_v4(cidrs@) == blocks@.take(i as int),
            decreases blocks.len() - i,
        {
            let block = blocks[i];
            assert(valid(blocks@[i as int]));
            let cidr = Ipv4Cidr::from_block(block.0, block.1);
            let ghost before = cidrs@;
            cidrs.push(cidr);
            proof {
                assert forall|k: int| 0 <= k <= i implies blocks_v4(cidrs@)[k] == blocks@[k] by {
                    if k < i {
                        assert(blocks_v4(before)[k] == blocks@.take(i as int)[k]);
                    }
                }
                assert(blocks_v4(cidrs@) =~= blocks@.take(i + 1));
            }
            i = i + 1;
        }
        assert(blocks@.take(i as int) == blocks@);
        cidrs
    }

    /// The set's IPv6 blocks: the one coalesced list that covers the set's
    /// IPv6 addresses.
    pub fn ipv6_cidrs(&self) -> (r: Vec<Ipv6Cidr>)
        ensures
            self.wf(),
            blocks_v6(r@) == self.ipv6_blocks(),
    {
        proof {
            use_type_invariant(self);
        }
        let blocks = combiner_get_ipv6_cidrs(&self.cidr_ranges);
        let mut cidrs: Vec<Ipv6Cidr> = Vec::new();
        let mut i: usize = 0;
        while i < blocks.len()
            invariant
                i <= blocks.len(),
                blocks@ == self.ipv6_blocks(),
                canonical(blocks@),
                cidrs@.len() == i,
                blocks_v6(cidrs@) == blocks@.take(i as int),
            decreases blocks.len() - i,
        {
            let block = blocks[i];
            assert(valid(blocks@[i as int]));
            let cidr = Ipv6Cidr::from_block(block.0, block.1);
            let ghost before = cidrs@;
            cidrs.push(cidr);
            proof {
                assert forall|k: int| 0 <= k <= i implies blocks_v6(cidrs@)[k] == blocks@[k] by {
                    if k < i {
                        assert(blocks_v6(before)[k] == blocks@.take(i as int)[k]);
                    }
                }
                assert(blocks_v6(cidrs@) =~= blocks@.take(i + 1));
            }
            i = i + 1;
        }
        assert(blocks@.take(i as int) == blocks@);
        cidrs
    }

    /// Constructs new set of trusted IPs from a decoded Cloudflare response:
    /// the set of the addresses in the blocks of a successful answer, and an
    /// error for the answer of a service that failed, whatever its flag says.
    pub fn try_from_response(res: CfIpsResponse) -> (r: Result<Self, CfIpsFetchErr>)
        ensures
            match res {
                CfIpsResponse::Success { result } => r is Ok && r->Ok_0.wf() && r->Ok_0@
                    == result.addrs(),
                CfIpsResponse::Failure { .. } => r is Err && r->Err_0 is Fetch,
            },
    {
        let ips = match res {
            CfIpsResponse::Success { result } => result,
            CfIpsResponse::Failure { .. } => {
                return Err(CfIpsFetchErr::Fetch);
            },
        };
        let mut cidr_ranges = combiner_new();
        push_ipv4_cidrs(&mut cidr_ranges, &ips.ipv4_cidrs);
        push_ipv6_cidrs(&mut cidr_ranges, &ips.ipv6_cidrs);
        let r = Self { cidr_ranges };
        proof {
            assert forall|ip: IpAddr| r@.contains(ip) <==> ips.addrs().contains(ip) by {
                match ip {
                    IpAddr::V4(a) => {
                        let list = blocks_v4(ips.ipv4_cidrs@);
                        if covered(list, a.bits) {
                            let k = choose|k: int|
                                0 <= k < list.len() && holds(#[trigger] list[k], a.bits);
                            assert(ips.ipv4_cidrs@[k].has(ip));
                        }
                        if ips.addrs().contains(ip) {
                            let k = choose|k: int|
                                0 <= k < ips.ipv4_cidrs@.len() && (
                                #[trigger] ips.ipv4_cidrs@[k]).has(ip);
                            assert(holds(list[k], a.bits));
                        }
                    },
                    IpAddr::V6(a) => {
                        let list = blocks_v6(ips.ipv6_cidrs@);
                        if covered(list, a.bits) {
                            let k = choose|k: int|
                                0 <= k < list.len() && holds(#[trigger] list[k], a.bits);
                            assert(ips.ipv6_cidrs@[k].has(ip));
                        }
                        if ips.addrs().contains(ip) {
                            let k = choose|k: int|
                                0 <= k < ips.ipv6_cidrs@.len() && (
                                #[trigger] ips.ipv6_cidrs@[k]).has(ip);
                            assert(holds(list[k], a.bits));
                        }
                    },
                }
            }
            assert(r@ =~= ips.addrs());
        }
        Ok(r)
    }
}

impl Clone for TrustedIps {
    /// A set of its own with the same addresses, built anew from this
    /// set's blocks.
    fn clone(&self) -> (r: Self)
        ensures
            r.wf(),
            r@ == self@,
            r.ipv4_blocks() == self.ipv4_blocks(),
            r.ipv6_blocks() == self.ipv6_blocks(),
    {
        let ipv4_cidrs = self.ipv4_cidrs();
        let ipv6_cidrs = self.ipv6_cidrs();
        let mut cidr_ranges = if ipv4_cidrs.len() <= usize::MAX / 64 && ipv6_cidrs.len()
            <= usize::MAX / 64 {
            combiner_with_capacity(ipv4_cidrs.len(), ipv6_cidrs.len())
        } else {
            combiner_new()
        };
        push_ipv4_cidrs(&mut cidr_ranges, &ipv4_cidrs);
        push_ipv6_cidrs(&mut cidr_ranges, &ipv6_cidrs);
        proof {
            lemma_canonical_unique(combiner_ipv4(cidr_ranges), self.ipv4_blocks());
            lemma_canonical_unique(combiner_ipv6(cidr_ranges), self.ipv6_blocks());
        }
        Self { cidr_ranges }
    }
}

impl Default for TrustedIps {
    /// The empty set.
    fn default() -> (r: Self)
        ensures
            r.wf(),
            r@ == Set::<IpAddr>::empty(),
    {
        TrustedIps::new()
    }
}

} // verus!
