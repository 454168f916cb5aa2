//! Addresses of the two families, as plain integers.

use vstd::prelude::*;

verus! {

/// The 32-bit word whose bytes, from the most significant one, are the four
/// octets.
pub open spec fn word_of_octets(a: u8, b: u8, c: u8, d: u8) -> u32 {
    ((a as u32) << 24) | ((b as u32) << 16) | ((c as u32) << 8) | (d as u32)
}

/// The 128-bit word whose 16-bit groups, from the most significant one, are
/// the eight segments.
pub open spec fn word_of_segments(s: Seq<u16>) -> u128
    recommends
        s.len() == 8,
{
    ((s[0] as u128) << 112) | ((s[1] as u128) << 96) | ((s[2] as u128) << 80) | ((s[3] as u128)
        << 64) | ((s[4] as u128) << 48) | ((s[5] as u128) << 32) | ((s[6] as u128) << 16) | (
    s[7] as u128)
}

/// An IPv4 address.
#[derive(Clone, Copy, Debug, PartialEq, Eq, Hash)]
pub struct Ipv4Addr {
    /// The address as a number, first octet most significant.
    pub bits: u32,
}

/// An IPv6 address.
#[derive(Clone, Copy, Debug, PartialEq, Eq, Hash)]
pub struct Ipv6Addr {
    /// The address as a number, first segment most significant.
    pub bits: u128,
}

/// An address of either family. The families are kept apart: an IPv6
/// address is never read as an IPv4 one, whatever its leading bits.
#[derive(Clone, Copy, Debug, PartialEq, Eq, Hash)]
pub enum IpAddr {
    V4(Ipv4Addr),
    V6(Ipv6Addr),
}

impl Ipv4Addr {
    /// The address `a.b.c.d`.
    pub fn new(a: u8, b: u8, c: u8, d: u8) -> (r: Ipv4Addr)
        ensures
            r.bits == word_of_octets(a, b, c, d),
    {
        Ipv4Addr { bits: ((a as u32) << 24) | ((b as u32) << 16) | ((c as u32) << 8) | (d as u32) }
    }

    /// The address that is the given number.
    pub fn from_bits(bits: u32) -> (r: Ipv4Addr)
        ensures
            r.bits == bits,
    {
        Ipv4Addr { bits }
    }

    /// The address as a number.
    pub fn to_bits(&self) -> (r: u32)
        ensures
            r == self.bits,
    {
        self.bits
    }
}

impl Ipv6Addr {
    /// The address `a:b:c:d:e:f:g:h`.
    pub fn new(a: u16, b: u16, c: u16, d: u16, e: u16, f: u16, g: u16, h: u16) -> (r: Ipv6Addr)
        ensures
            r.bits == word_of_segments(seq![a, b, c, d, e, f, g, h]),
    {
        Ipv6Addr {
            bits: ((a as u128) << 112) | ((b as u128) << 96) | ((c as u128) << 80) | ((d as u128)
                << 64) | ((e as u128) << 48) | ((f as u128) << 32) | ((g as u128) << 16) | (
            h as u128),
        }
    }

    /// The address that is the given number.
    pub fn from_bits(bits: u128) -> (r: Ipv6Addr)
        ensures
            r.bits == bits,
    {
        Ipv6Addr { bits }
    }

    /// The address as a number.
    pub fn to_bits(&self) -> (r: u128)
        ensures
            r == self.bits,
    {
        self.bits
    }
}

/// A value that can be taken as an IPv4 address.
pub trait Ipv4Able {
    /// The address as a number.
    spec fn word(&self) -> u32;

    /// The address as a number.
    fn get_u32(&self) -> (r: u32)
        ensures
            r == self.word(),
    ;
}

impl Ipv4Able for u32 {
    open spec fn word(&self) -> u32 {
        *self
    }

    fn get_u32(&self) -> (r: u32) {
        *self
    }
}

impl Ipv4Able for [u8; 4] {
    open spec fn word(&self) -> u32 {
        word_of_octets(self[0], self[1], self[2], self[3])
    }

    fn get_u32(&self) -> (r: u32) {
        ((self[0] as u32) << 24) | ((self[1] as u32) << 16) | ((self[2] as u32) << 8) | (
        self[3] as u32)
    }
}

impl Ipv4Able for Ipv4Addr {
    open spec fn word(&self) -> u32 {
        self.bits
    }

    fn get_u32(&self) -> (r: u32) {
        self.bits
    }
}

/// A value that can be taken as an IPv6 address.
pub trait Ipv6Able {
    /// The address as a number.
    spec fn word(&self) -> u128;

    /// The address as a number.
    fn get_u128(&self) -> (r: u128)
        ensures
            r == self.word(),
    ;
}

impl Ipv6Able for u128 {
    open spec fn word(&self) -> u128 {
        *self
    }

    fn get_u128(&self) -> (r: u128) {
        *self
    }
}

impl Ipv6Able for [u16; 8] {
    open spec fn word(&self) -> u128 {
        word_of_segments(self@)
    }

    fn get_u128(&self) -> (r: u128) {
        ((self[0] as u128) << 112) | ((self[1] as u128) << 96) | ((self[2] as u128) << 80) | ((
        self[3] as u128) << 64) | ((self[4] as u128) << 48) | ((self[5] as u128) << 32) | ((
        self[6] as u128) << 16) | (self[7] as u128)
    }
}

impl Ipv6Able for Ipv6Addr {
    open spec fn word(&self) -> u128 {
        self.bits
    }

    fn get_u128(&self) -> (r: u128) {
        self.bits
    }
}

} // verus!
