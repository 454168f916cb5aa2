//! The block combiner of the `cidr_utils` crate, which keeps the blocks of
//! each family as one coalesced list, and what is taken on trust of it.

use vstd::prelude::*;
use cidr_utils::utils::IpCidrCombiner;
use crate::addr::IpAddr;
use crate::blocks::{canonical, covered, holds, valid};
use crate::cidr::IpCidr;

verus! {

/// The combiner of `cidr_utils`, opaque to the verifier.
#[verifier::external_type_specification]
#[verifier::external_body]
pub struct ExIpCidrCombiner(cidr_utils::utils::IpCidrCombiner);

/// The combiner's IPv4 blocks, each as its prefix and its length, in the
/// order in which the combiner holds them.
pub uninterp spec fn combiner_ipv4(combiner: IpCidrCombiner) -> Seq<(u32, u8)>;

/// The combiner's IPv6 blocks, each as its prefix and its length, in the
/// order in which the combiner holds them.
pub uninterp spec fn combiner_ipv6(combiner: IpCidrCombiner) -> Seq<(u128, u8)>;

/// Both of the combiner's lists are coalesced.
pub open spec fn coalesced(combiner: IpCidrCombiner) -> bool {
    canonical(combiner_ipv4(combiner)) && canonical(combiner_ipv6(combiner))
}

/// The list `after` is coalesced and covers what `before` covers and the
/// block besides, no more.
pub open spec fn joined<W: crate::word::Word>(
    before: Seq<(W, u8)>,
    block: (W, u8),
    after: Seq<(W, u8)>,
) -> bool {
    canonical(after) && forall|addr: W|
        covered(after, addr) <==> covered(before, addr) || holds(block, addr)
}

/// `IpCidrCombiner::new`: a combiner that holds no block.
#[verifier::external_body]
pub(crate) fn combiner_new() -> (combiner: IpCidrCombiner)
    ensures
        combiner_ipv4(combiner) == Seq::<(u32, u8)>::empty(),
        combiner_ipv6(combiner) == Seq::<(u128, u8)>::empty(),
{
    IpCidrCombiner::new()
}

/// `IpCidrCombiner::with_capacity`: a combiner that holds no block, with
/// room set aside for the given numbers of blocks. The numbers are kept so
/// small that the sizes of the two allocations can be computed.
#[verifier::external_body]
pub(crate) fn combiner_with_capacity(ipv4_capacity: usize, ipv6_capacity: usize) -> (combiner:
    IpCidrCombiner)
    requires
        ipv4_capacity <= usize::MAX / 64,
        ipv6_capacity <= usize::MAX / 64,
    ensures
        combiner_ipv4(combiner) == Seq::<(u32, u8)>::empty(),
        combiner_ipv6(combiner) == Seq::<(u128, u8)>::empty(),
{
    IpCidrCombiner::with_capacity(ipv4_capacity, ipv6_capacity)
}

/// `IpCidrCombiner::push`: the block goes into the list of its family; the
/// other list stays as it is. Into a coalesced list the combiner inserts the
/// block at its place by prefix unless the list covers it already, drops the
/// blocks that lie in it, and merges it with a neighbour that is its other
/// half as long as there is one: the list is coalesced again, and covers
/// what it covered and the block.
#[verifier::external_body]
pub(crate) fn combiner_push(combiner: &mut IpCidrCombiner, cidr: IpCidr)
    requires
        coalesced(*old(combiner)),
        match cidr {
            IpCidr::V4(c) => valid(c@),
            IpCidr::V6(c) => valid(c@),
        },
    ensures
        match cidr {
            IpCidr::V4(c) => joined(
                combiner_ipv4(*old(combiner)),
                c@,
                combiner_ipv4(*final(combiner)),
            ) && combiner_ipv6(*final(combiner)) == combiner_ipv6(*old(combiner)),
            IpCidr::V6(c) => joined(
                combiner_ipv6(*old(combiner)),
                c@,
                combiner_ipv6(*final(combiner)),
            ) && combiner_ipv4(*final(combiner)) == combiner_ipv4(*old(combiner)),
        },
{
    combiner.push(
        match cidr {
            IpCidr::V4(c) => cidr_utils::cidr::IpCidr::V4(
                cidr_utils::cidr::Ipv4Cidr::from_prefix_and_bits(c.prefix, c.bits).unwrap(),
            ),
            IpCidr::V6(c) => cidr_utils::cidr::IpCidr::V6(
                cidr_utils::cidr::Ipv6Cidr::from_prefix_and_bits(c.prefix, c.bits).unwrap(),
            ),
        },
    )
}

/// `IpCidrCombiner::contains`: whether a block of the address's own family
/// holds the address. The address is handed over as its bytes, most
/// significant first.
#[verifier::external_body]
pub(crate) fn combiner_contains(combiner: &IpCidrCombiner, ip: IpAddr) -> (r: bool)
    ensures
        r == match ip {
            IpAddr::V4(a) => covered(combiner_ipv4(*combiner), a.bits),
            IpAddr::V6(a) => covered(combiner_ipv6(*combiner), a.bits),
        },
{
    match ip {
        IpAddr::V4(a) => combiner.contains(a.bits.to_be_bytes().into()),
        IpAddr::V6(a) => combiner.contains(a.bits.to_be_bytes().into()),
    }
}

/// `IpCidrCombiner::get_ipv4_cidrs`: the IPv4 blocks, each handed out as its
/// prefix and its length.
#[verifier::external_body]
pub(crate) fn combiner_get_ipv4_cidrs(combiner: &IpCidrCombiner) -> (r: Vec<(u32, u8)>)
    ensures
        r@ == combiner_ipv4(*combiner),
{
    combiner.get_ipv4_cidrs().iter().map(|c| (c.get_prefix(), c.get_bits())).collect()
}

/// `IpCidrCombiner::get_ipv6_cidrs`: the IPv6 blocks, each handed out as its
/// prefix and its length.
#[verifier::external_body]
pub(crate) fn combiner_get_ipv6_cidrs(combiner: &IpCidrCombiner) -> (r: Vec<(u128, u8)>)
    ensures
        r@ == combiner_ipv6(*combiner),
{
    combiner.get_ipv6_cidrs().iter().map(|c| (c.get_prefix(), c.get_bits())).collect()
}

} // verus!
