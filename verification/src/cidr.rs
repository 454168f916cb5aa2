//! CIDR blocks: a prefix and the number of its leading bits that count.

use vstd::prelude::*;
use crate::addr::{IpAddr, Ipv4Able, Ipv6Able};
use crate::blocks::{holds, valid};
use crate::word::{mask128, mask32};

verus! {

/// Why a block could not be made.
#[derive(Clone, Copy, Debug, PartialEq, Eq)]
pub enum CidrError {
    /// The prefix length is larger than the family's width.
    IncorrectBitsRange,
    /// The mask is not a run of set bits followed by clear bits.
    IncorrectMask,
    /// The prefix has bits set behind the prefix length.
    IncorrectPrefix,
}

/// An IPv4 block. Its length is at most 32 and its prefix has no bit set
/// behind that length.
#[derive(Clone, Copy, Debug, PartialEq, Eq, Hash)]
pub struct Ipv4Cidr {
    pub(crate) prefix: u32,
    pub(crate) bits: u8,
}

/// An IPv6 block. Its length is at most 128 and its prefix has no bit set
/// behind that length.
#[derive(Clone, Copy, Debug, PartialEq, Eq, Hash)]
pub struct Ipv6Cidr {
    pub(crate) prefix: u128,
    pub(crate) bits: u8,
}

/// A block of either family.
#[derive(Clone, Copy, Debug, PartialEq, Eq, Hash)]
pub enum IpCidr {
    V4(Ipv4Cidr),
    V6(Ipv6Cidr),
}

/// The IPv4 addresses of a block, as addresses of either family.
pub open spec fn ipv4_addrs(block: (u32, u8)) -> Set<IpAddr> {
    Set::new(
        |ip: IpAddr|
            match ip {
                IpAddr::V4(a) => holds(block, a.bits),
                IpAddr::V6(_) => false,
            },
    )
}

/// The IPv6 addresses of a block, as addresses of either family.
pub open spec fn ipv6_addrs(block: (u128, u8)) -> Set<IpAddr> {
    Set::new(
        |ip: IpAddr|
            match ip {
                IpAddr::V4(_) => false,
                IpAddr::V6(a) => holds(block, a.bits),
            },
    )
}

/// The blocks of a list of IPv4 blocks, each as its prefix and its length.
pub open spec fn blocks_v4(cidrs: Seq<Ipv4Cidr>) -> Seq<(u32, u8)> {
    cidrs.map_values(|c: Ipv4Cidr| c@)
}

/// The blocks of a list of IPv6 blocks, each as its prefix and its length.
pub open spec fn blocks_v6(cidrs: Seq<Ipv6Cidr>) -> Seq<(u128, u8)> {
    cidrs.map_values(|c: Ipv6Cidr| c@)
}

/// The mask is the one of some prefix length.
pub open spec fn is_netmask32(mask: u32) -> bool {
    exists|bits: u8| bits <= 32 && #[trigger] mask32(bits) == mask
}

/// The mask is the one of some prefix length.
pub open spec fn is_netmask128(mask: u128) -> bool {
    exists|bits: u8| bits <= 128 && #[trigger] mask128(bits) == mask
}

/// The mask of a prefix length.
fn get_mask32(bits: u8) -> (mask: u32)
    requires
        bits <= 32,
    ensures
        mask == mask32(bits),
{
    if bits == 0 {
        0
    } else {
        let shift: u32 = 32 - bits as u32;
        assert(0xffff_ffffu32 << shift == mask32(bits)) by (bit_vector)
            requires
                1 <= bits <= 32,
                shift == 32 - bits,
        ;
        0xffff_ffffu32 << shift
    }
}

/// The mask of a prefix length.
fn get_mask128(bits: u8) -> (mask: u128)
    requires
        bits <= 128,
    ensures
        mask == mask128(bits),
{
    if bits == 0 {
        0
    } else {
        let shift: u32 = 128 - bits as u32;
        assert(0xffff_ffff_ffff_ffff_ffff_ffff_ffff_ffffu128 << shift == mask128(bits))
            by (bit_vector)
            requires
                1 <= bits <= 128,
                shift == 128 - bits,
        ;
        0xffff_ffff_ffff_ffff_ffff_ffff_ffff_ffffu128 << shift
    }
}

/// The prefix length of a mask, if it is the mask of one.
fn mask_to_bits32(mask: u32) -> (r: Option<u8>)
    ensures
        match r {
            Some(bits) => bits <= 32 && mask32(bits) == mask,
            None => !is_netmask32(mask),
        },
{
    let mut bits: u8 = 0;
    while bits <= 32
        invariant
            bits <= 33,
            forall|b: u8| b < bits ==> mask32(b) != mask,
        decreases 33 - bits,
    {
        if get_mask32(bits) == mask {
            return Some(bits);
        }
        bits = bits + 1;
    }
    None
}

/// The prefix length of a mask, if it is the mask of one.
fn mask_to_bits128(mask: u128) -> (r: Option<u8>)
    ensures
        match r {
            Some(bits) => bits <= 128 && mask128(bits) == mask,
            None => !is_netmask128(mask),
        },
{
    let mut bits: u8 = 0;
    while bits <= 128
        invariant
            bits <= 129,
            forall|b: u8| b < bits ==> mask128(b) != mask,
        decreases 129 - bits,
    {
        if get_mask128(bits) == mask {
            return Some(bits);
        }
        bits = bits + 1;
    }
    None
}

impl View for Ipv4Cidr {
    type V = (u32, u8);

    /// The block as its prefix and its length.
    closed spec fn view(&self) -> (u32, u8) {
        (self.prefix, self.bits)
    }
}

impl Ipv4Cidr {
    /// What holds of every block: it is valid.
    #[verifier::type_invariant]
    pub open spec fn wf(self) -> bool {
        valid(self@)
    }

    /// The address is an IPv4 one and lies in the block.
    pub open spec fn has(self, ip: IpAddr) -> bool {
        ipv4_addrs(self@).contains(ip)
    }

    /// The block of a prefix and a length that are known to be valid.
    pub(crate) fn from_block(prefix: u32, bits: u8) -> (r: Ipv4Cidr)
        requires
            valid((prefix, bits)),
        ensures
            r@ == (prefix, bits),
    {
        Ipv4Cidr { prefix, bits }
    }

    /// The block of the given prefix and length. It is refused where the
    /// length is over 32, and where the prefix has a bit set behind the
    /// length, in that order.
    pub fn from_prefix_and_bits<P: Ipv4Able>(prefix: P, bits: u8) -> (r: Result<
        Ipv4Cidr,
        CidrError,
    >)
        ensures
            r is Ok <==> valid((prefix.word(), bits)),
            r is Ok ==> r->Ok_0@ == (prefix.word(), bits),
            r is Err ==> r->Err_0 == (if bits > 32 {
                CidrError::IncorrectBitsRange
            } else {
                CidrError::IncorrectPrefix
            }),
    {
        if bits > 32 {
            return Err(CidrError::IncorrectBitsRange);
        }
        let prefix = prefix.get_u32();
        if prefix & get_mask32(bits) != prefix {
            return Err(CidrError::IncorrectPrefix);
        }
        Ok(Ipv4Cidr { prefix, bits })
    }

    /// The block of the given prefix and mask. It is refused where the mask
    /// is not the mask of a prefix length, and where the prefix has a bit set
    /// that the mask has not, in that order.
    pub fn from_prefix_and_mask<P: Ipv4Able, M: Ipv4Able>(prefix: P, mask: M) -> (r: Result<
        Ipv4Cidr,
        CidrError,
    >)
        ensures
            r is Ok <==> is_netmask32(mask.word()) && prefix.word() & mask.word() == prefix.word(),
            r is Ok ==> r->Ok_0@.0 == prefix.word() && r->Ok_0@.1 <= 32 && mask32(r->Ok_0@.1)
                == mask.word(),
            r is Err ==> r->Err_0 == (if is_netmask32(mask.word()) {
                CidrError::IncorrectPrefix
            } else {
                CidrError::IncorrectMask
            }),
    {
        let mask = mask.get_u32();
        match mask_to_bits32(mask) {
            Some(bits) => {
                let prefix = prefix.get_u32();
                if prefix & mask != prefix {
                    return Err(CidrError::IncorrectPrefix);
                }
                Ok(Ipv4Cidr { prefix, bits })
            },
            None => Err(CidrError::IncorrectMask),
        }
    }

    /// The block's prefix, as a number.
    pub fn get_prefix(&self) -> (r: u32)
        ensures
            r == self@.0,
    {
        self.prefix
    }

    /// The block's prefix length.
    pub fn get_bits(&self) -> (r: u8)
        ensures
            r == self@.1,
            r <= 32,
    {
        proof {
            use_type_invariant(self);
        }
        self.bits
    }

    /// The block's mask, as a number.
    pub fn get_mask(&self) -> (r: u32)
        ensures
            r == mask32(self@.1),
    {
        proof {
            use_type_invariant(self);
        }
        get_mask32(self.bits)
    }

    /// Whether the address lies in the block.
    pub fn contains<A: Ipv4Able>(&self, ip: A) -> (r: bool)
        ensures
            r == holds(self@, ip.word()),
    {
        proof {
            use_type_invariant(self);
        }
        ip.get_u32() & get_mask32(self.bits) == self.prefix
    }
}

impl View for Ipv6Cidr {
    type V = (u128, u8);

    /// The block as its prefix and its length.
    closed spec fn view(&self) -> (u128, u8) {
        (self.prefix, self.bits)
    }
}

impl Ipv6Cidr {
    /// What holds of every block: it is valid.
    #[verifier::type_invariant]
    pub open spec fn wf(self) -> bool {
        valid(self@)
    }

    /// The address is an IPv6 one and lies in the block.
    pub open spec fn has(self, ip: IpAddr) -> bool {
        ipv6_addrs(self@).contains(ip)
    }

    /// The block of a prefix and a length that are known to be valid.
    pub(crate) fn from_block(prefix: u128, bits: u8) -> (r: Ipv6Cidr)
        requires
            valid((prefix, bits)),
        ensures
            r@ == (prefix, bits),
    {
        Ipv6Cidr { prefix, bits }
    }

    /// The block of the given prefix and length. It is refused where the
    /// length is over 128, and where the prefix has a bit set behind the
    /// length, in that order.
    pub fn from_prefix_and_bits<P: Ipv6Able>(prefix: P, bits: u8) -> (r: Result<
        Ipv6Cidr,
        CidrError,
    >)
        ensures
            r is Ok <==> valid((prefix.word(), bits)),
            r is Ok ==> r->Ok_0@ == (prefix.word(), bits),
            r is Err ==> r->Err_0 == (if bits > 128 {
                CidrError::IncorrectBitsRange
            } else {
                CidrError::IncorrectPrefix
            }),
    {
        if bits > 128 {
            return Err(CidrError::IncorrectBitsRange);
        }
        let prefix = prefix.get_u128();
        if prefix & get_mask128(bits) != prefix {
            return Err(CidrError::IncorrectPrefix);
        }
        Ok(Ipv6Cidr { prefix, bits })
    }

    /// The block of the given prefix and mask. It is refused where the mask
    /// is not the mask of a prefix length, and where the prefix has a bit set
    /// that the mask has not, in that order.
    pub fn from_prefix_and_mask<P: Ipv6Able, M: Ipv6Able>(prefix: P, mask: M) -> (r: Result<
        Ipv6Cidr,
        CidrError,
    >)
        ensures
            r is Ok <==> is_netmask128(mask.word()) && prefix.word() & mask.word()
                == prefix.word(),
            r is Ok ==> r->Ok_0@.0 == prefix.word() && r->Ok_0@.1 <= 128 && mask128(r->Ok_0@.1)
                == mask.word(),
            r is Err ==> r->Err_0 == (if is_netmask128(mask.word()) {
                CidrError::IncorrectPrefix
            } else {
                CidrError::IncorrectMask
            }),
    {
        let mask = mask.get_u128();
        match mask_to_bits128(mask) {
            Some(bits) => {
                let prefix = prefix.get_u128();
                if prefix & mask != prefix {
                    return Err(CidrError::IncorrectPrefix);
                }
                Ok(Ipv6Cidr { prefix, bits })
            },
            None => Err(CidrError::IncorrectMask),
        }
    }

    /// The block's prefix, as a number.
    pub fn get_prefix(&self) -> (r: u128)
        ensures
            r == self@.0,
    {
        self.prefix
    }

    /// The block's prefix length.
    pub fn get_bits(&self) -> (r: u8)
        ensures
            r == self@.1,
            r <= 128,
    {
        proof {
            use_type_invariant(self);
        }
        self.bits
    }

    /// The block's mask, as a number.
    pub fn get_mask(&self) -> (r: u128)
        ensures
            r == mask128(self@.1),
    {
        proof {
            use_type_invariant(self);
        }
        get_mask128(self.bits)
    }

    /// Whether the address lies in the block.
    pub fn contains<A: Ipv6Able>(&self, ip: A) -> (r: bool)
        ensures
            r == holds(self@, ip.word()),
    {
        proof {
            use_type_invariant(self);
        }
        ip.get_u128() & get_mask128(self.bits) == self.prefix
    }
}

impl IpCidr {
    /// The address is of the block's family and lies in the block.
    pub open spec fn has(self, ip: IpAddr) -> bool {
        self.addrs().contains(ip)
    }

    /// The block's addresses.
    pub open spec fn addrs(self) -> Set<IpAddr> {
        match self {
            IpCidr::V4(c) => ipv4_addrs(c@),
            IpCidr::V6(c) => ipv6_addrs(c@),
        }
    }

    /// Whether the address is of the block's family and lies in the block.
    pub fn contains(&self, ip: IpAddr) -> (r: bool)
        ensures
            r == self.has(ip),
    {
        match (self, ip) {
            (IpCidr::V4(c), IpAddr::V4(a)) => c.contains(a),
            (IpCidr::V6(c), IpAddr::V6(a)) => c.contains(a),
            _ => false,
        }
    }
}

} // verus!
