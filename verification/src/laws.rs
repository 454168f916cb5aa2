//! What holds of trusted sets whatever was added to them, and in whatever
//! order.

use vstd::prelude::*;
use crate::addr::{word_of_octets, IpAddr, Ipv4Addr, Ipv6Addr};
use crate::blocks::{
    covered,
    holds,
    lemma_canonical_shortest,
    lemma_canonical_unique,
    lemma_halves_cover,
    lemma_no_block,
    lemma_single_block,
    lower_half,
    upper_half,
    valid,
};
use crate::cidr::{ipv4_addrs, ipv6_addrs};
use crate::trusted_ips::{loopback_block, private_block_10, private_block_192_168, TrustedIps};
use crate::word::{mask128, mask32};

verus! {

/// A set is kept in one way only: two sets with the same addresses are kept
/// as the same blocks, so what is handed out of a set depends on nothing but
/// the addresses in it.
pub proof fn law_blocks_determined(one: TrustedIps, other: TrustedIps)
    requires
        one.wf(),
        other.wf(),
        one@ == other@,
    ensures
        one.ipv4_blocks() == other.ipv4_blocks(),
        one.ipv6_blocks() == other.ipv6_blocks(),
{
    assert forall|a: u32|
        covered(one.ipv4_blocks(), a) <==> covered(other.ipv4_blocks(), a) by {
        let ip = IpAddr::V4(Ipv4Addr { bits: a });
        law_contains_by_blocks(one, ip);
        law_contains_by_blocks(other, ip);
    }
    assert forall|a: u128|
        covered(one.ipv6_blocks(), a) <==> covered(other.ipv6_blocks(), a) by {
        let ip = IpAddr::V6(Ipv6Addr { bits: a });
        law_contains_by_blocks(one, ip);
        law_contains_by_blocks(other, ip);
    }
    lemma_canonical_unique(one.ipv4_blocks(), other.ipv4_blocks());
    lemma_canonical_unique(one.ipv6_blocks(), other.ipv6_blocks());
}

/// A set is kept as few blocks as can be: no list of valid blocks that
/// holds the set's addresses of a family, and no others of it, is shorter
/// than the set's own list for that family.
pub proof fn law_blocks_fewest(set: TrustedIps, v4: Seq<(u32, u8)>, v6: Seq<(u128, u8)>)
    requires
        set.wf(),
        forall|i: int| 0 <= i < v4.len() ==> valid(#[trigger] v4[i]),
        forall|i: int| 0 <= i < v6.len() ==> valid(#[trigger] v6[i]),
        forall|a: u32| covered(v4, a) <==> set@.contains(IpAddr::V4(Ipv4Addr { bits: a })),
        forall|a: u128| covered(v6, a) <==> set@.contains(IpAddr::V6(Ipv6Addr { bits: a })),
    ensures
        set.ipv4_blocks().len() <= v4.len(),
        set.ipv6_blocks().len() <= v6.len(),
{
    assert forall|a: u32| covered(set.ipv4_blocks(), a) <==> covered(v4, a) by {
        law_contains_by_blocks(set, IpAddr::V4(Ipv4Addr { bits: a }));
    }
    assert forall|a: u128| covered(set.ipv6_blocks(), a) <==> covered(v6, a) by {
        law_contains_by_blocks(set, IpAddr::V6(Ipv6Addr { bits: a }));
    }
    lemma_canonical_shortest(set.ipv4_blocks(), v4);
    lemma_canonical_shortest(set.ipv6_blocks(), v6);
}

/// A set answers for an address as its blocks do: it holds an IPv4 address
/// if and only if one of its IPv4 blocks does, and an IPv6 address if and
/// only if one of its IPv6 blocks does.
pub proof fn law_contains_by_blocks(set: TrustedIps, ip: IpAddr)
    ensures
        set@.contains(ip) <==> match ip {
            IpAddr::V4(a) => covered(set.ipv4_blocks(), a.bits),
            IpAddr::V6(a) => covered(set.ipv6_blocks(), a.bits),
        },
{
}

/// Adding a range a second time changes nothing: the set holds the same
/// addresses and is kept as the same blocks as after the first time.
pub proof fn law_add_twice(before: TrustedIps, once: TrustedIps, twice: TrustedIps, range: Set<IpAddr>)
    requires
        once.wf(),
        twice.wf(),
        once@ == before@.union(range),
        twice@ == once@.union(range),
    ensures
        twice@ == once@,
        twice.ipv4_blocks() == once.ipv4_blocks(),
        twice.ipv6_blocks() == once.ipv6_blocks(),
{
    assert(twice@ =~= once@);
    law_blocks_determined(once, twice);
}

/// The order in which two ranges are added does not matter, neither to the
/// addresses of the set nor to the blocks it is kept as.
pub proof fn law_add_order(
    before: TrustedIps,
    one: TrustedIps,
    other: TrustedIps,
    first: Set<IpAddr>,
    second: Set<IpAddr>,
)
    requires
        one.wf(),
        other.wf(),
        one@ == before@.union(first).union(second),
        other@ == before@.union(second).union(first),
    ensures
        one@ == other@,
        one.ipv4_blocks() == other.ipv4_blocks(),
        one.ipv6_blocks() == other.ipv6_blocks(),
{
    assert(one@ =~= other@);
    law_blocks_determined(one, other);
}

/// The two halves of an IPv4 block hold together what the block holds.
pub proof fn law_ipv4_halves(block: (u32, u8))
    requires
        valid(block),
        block.1 < 32,
    ensures
        valid(lower_half(block)),
        valid(upper_half(block)),
        ipv4_addrs(lower_half(block)).union(ipv4_addrs(upper_half(block))) == ipv4_addrs(block),
{
    lemma_halves_cover(block, 0u32);
    assert forall|ip: IpAddr|
        ipv4_addrs(lower_half(block)).union(ipv4_addrs(upper_half(block))).contains(ip)
            <==> ipv4_addrs(block).contains(ip) by {
        match ip {
            IpAddr::V4(a) => {
                lemma_halves_cover(block, a.bits);
            },
            IpAddr::V6(_) => {},
        }
    }
    assert(ipv4_addrs(lower_half(block)).union(ipv4_addrs(upper_half(block))) =~= ipv4_addrs(
        block,
    ));
}

/// The two halves of an IPv6 block hold together what the block holds.
pub proof fn law_ipv6_halves(block: (u128, u8))
    requires
        valid(block),
        block.1 < 128,
    ensures
        valid(lower_half(block)),
        valid(upper_half(block)),
        ipv6_addrs(lower_half(block)).union(ipv6_addrs(upper_half(block))) == ipv6_addrs(block),
{
    lemma_halves_cover(block, 0u128);
    assert forall|ip: IpAddr|
        ipv6_addrs(lower_half(block)).union(ipv6_addrs(upper_half(block))).contains(ip)
            <==> ipv6_addrs(block).contains(ip) by {
        match ip {
            IpAddr::V4(_) => {},
            IpAddr::V6(a) => {
                lemma_halves_cover(block, a.bits);
            },
        }
    }
    assert(ipv6_addrs(lower_half(block)).union(ipv6_addrs(upper_half(block))) =~= ipv6_addrs(
        block,
    ));
}

/// A set that holds the addresses of one IPv4 block and no others is kept as
/// that block alone, however it came about: the two halves of a block,
/// added one after the other to an empty set, are kept as the block.
pub proof fn law_ipv4_single_block(set: TrustedIps, block: (u32, u8))
    requires
        set.wf(),
        valid(block),
        set@ == ipv4_addrs(block),
    ensures
        set.ipv4_blocks() == seq![block],
        set.ipv6_blocks() == Seq::<(u128, u8)>::empty(),
{
    assert forall|a: u32| covered(set.ipv4_blocks(), a) <==> holds(block, a) by {
        let ip = IpAddr::V4(Ipv4Addr { bits: a });
        assert(set@.contains(ip) <==> ipv4_addrs(block).contains(ip));
    }
    assert forall|a: u128| !covered(set.ipv6_blocks(), a) by {
        let ip = IpAddr::V6(Ipv6Addr { bits: a });
        assert(set@.contains(ip) <==> ipv4_addrs(block).contains(ip));
    }
    lemma_single_block(set.ipv4_blocks(), block);
    lemma_no_block(set.ipv6_blocks());
}

/// A set that holds the addresses of one IPv6 block and no others is kept as
/// that block alone, however it came about.
pub proof fn law_ipv6_single_block(set: TrustedIps, block: (u128, u8))
    requires
        set.wf(),
        valid(block),
        set@ == ipv6_addrs(block),
    ensures
        set.ipv6_blocks() == seq![block],
        set.ipv4_blocks() == Seq::<(u32, u8)>::empty(),
{
    assert forall|a: u128| covered(set.ipv6_blocks(), a) <==> holds(block, a) by {
        let ip = IpAddr::V6(Ipv6Addr { bits: a });
        assert(set@.contains(ip) <==> ipv6_addrs(block).contains(ip));
    }
    assert forall|a: u32| !covered(set.ipv4_blocks(), a) by {
        let ip = IpAddr::V4(Ipv4Addr { bits: a });
        assert(set@.contains(ip) <==> ipv6_addrs(block).contains(ip));
    }
    lemma_single_block(set.ipv6_blocks(), block);
    lemma_no_block(set.ipv4_blocks());
}

/// The families are kept apart: an IPv4 block holds no IPv6 address and an
/// IPv6 block holds no IPv4 address, whatever their bits.
pub proof fn law_families_apart(v4: (u32, u8), v6: (u128, u8), a4: Ipv4Addr, a6: Ipv6Addr)
    ensures
        !ipv4_addrs(v4).contains(IpAddr::V6(a6)),
        !ipv6_addrs(v6).contains(IpAddr::V4(a4)),
{
}

/// The blocks of length 0 hold every address of their family: a set with
/// both of them holds every address.
pub proof fn law_everything(ip: IpAddr)
    ensures
        ipv4_addrs((0u32, 0u8)).union(ipv6_addrs((0u128, 0u8))).contains(ip),
{
    match ip {
        IpAddr::V4(a) => {
            let bits = a.bits;
            assert(bits & 0u32 == 0u32) by (bit_vector);
        },
        IpAddr::V6(a) => {
            let bits = a.bits;
            assert(bits & 0u128 == 0u128) by (bit_vector);
        },
    }
}

/// The presets by their leading octets: the loopback block holds the
/// addresses `127.x.x.x`, the private blocks hold `10.x.x.x` and
/// `192.168.x.x`, and none of the three holds an address of
/// `172.16.0.0/12`.
pub proof fn law_presets(a: u8, b: u8, c: u8, d: u8)
    ensures
        holds(loopback_block(), word_of_octets(a, b, c, d)) <==> a == 127,
        holds(private_block_10(), word_of_octets(a, b, c, d)) <==> a == 10,
        holds(private_block_192_168(), word_of_octets(a, b, c, d)) <==> a == 192 && b == 168,
        a == 172 && 16 <= b < 32 ==> !holds(loopback_block(), word_of_octets(a, b, c, d))
            && !holds(private_block_10(), word_of_octets(a, b, c, d)) && !holds(
            private_block_192_168(),
            word_of_octets(a, b, c, d),
        ),
{
    let w = word_of_octets(a, b, c, d);
    assert(w & mask32(8) == word_of_octets(127, 0, 0, 0) <==> a == 127) by (bit_vector)
        requires
            w == word_of_octets(a, b, c, d),
    ;
    assert(w & mask32(8) == word_of_octets(10, 0, 0, 0) <==> a == 10) by (bit_vector)
        requires
            w == word_of_octets(a, b, c, d),
    ;
    assert(w & mask32(16) == word_of_octets(192, 168, 0, 0) <==> a == 192 && b == 168)
        by (bit_vector)
        requires
            w == word_of_octets(a, b, c, d),
    ;
}

/// A mask is the mask of one prefix length only: a block made of a prefix
/// and a mask has one length.
pub proof fn law_mask_length(a: u8, b: u8)
    ensures
        a <= 32 && b <= 32 && mask32(a) == mask32(b) ==> a == b,
        a <= 128 && b <= 128 && mask128(a) == mask128(b) ==> a == b,
{
    assert(a <= 32 && b <= 32 && mask32(a) == mask32(b) ==> a == b) by (bit_vector);
    assert(a <= 128 && b <= 128 && mask128(a) == mask128(b) ==> a == b) by (bit_vector);
}

} // verus!
