//! Address words: the 32-bit and 128-bit integers that IPv4 and IPv6
//! addresses are, and the two bit operations that CIDR blocks are made of.

use vstd::prelude::*;

verus! {

/// An unsigned integer that holds an address of one family, most
/// significant bit first.
pub trait Word: Sized {
    /// The number of bits of an address.
    spec fn width() -> u8;

    /// The address as a number.
    spec fn value(self) -> int;

    /// The address with all but its leading `bits` bits cleared.
    spec fn masked(self, bits: u8) -> Self;

    /// The address with the last of its leading `bits` bits inverted.
    spec fn flipped(self, bits: u8) -> Self;

    /// Masking to a shorter prefix forgets a longer mask applied before.
    proof fn lemma_masked_twice(self, short: u8, long: u8)
        requires
            short <= long,
            long <= Self::width(),
        ensures
            self.masked(long).masked(short) == self.masked(short),
    ;

    /// A prefix of `bits` bits is also a prefix of `bits + 1` bits, and so is
    /// the prefix with that next bit set; both lie under the shorter prefix.
    proof fn lemma_halves(self, bits: u8)
        requires
            bits < Self::width(),
            self.masked(bits) == self,
        ensures
            self.masked((bits + 1) as u8) == self,
            self.flipped((bits + 1) as u8).masked((bits + 1) as u8) == self.flipped((bits + 1) as u8),
            self.flipped((bits + 1) as u8).masked(bits) == self,
    ;

    /// Inverting a bit changes the address.
    proof fn lemma_flipped_differs(self, bits: u8)
        requires
            1 <= bits <= Self::width(),
        ensures
            self.flipped(bits) != self,
    ;

    /// An address under a prefix of `bits` bits lies under one of the two
    /// prefixes of `bits + 1` bits that extend it.
    proof fn lemma_split(self, bits: u8)
        requires
            bits < Self::width(),
        ensures
            self.masked((bits + 1) as u8) == self.masked(bits)
                || self.masked((bits + 1) as u8) == self.masked(bits).flipped((bits + 1) as u8),
    ;
}

/// The 32-bit mask whose leading `bits` bits are set.
pub open spec fn mask32(bits: u8) -> u32 {
    if bits == 0 {
        0u32
    } else if bits >= 32 {
        0xffff_ffffu32
    } else {
        !(0xffff_ffffu32 >> (bits as u32))
    }
}

/// The 32-bit word with only the bit at position `bits` set, counted from
/// the most significant bit, which is position 1.
pub open spec fn bit32(bits: u8) -> u32 {
    if 1 <= bits <= 32 {
        1u32 << ((32 - bits) as u32)
    } else {
        0u32
    }
}

impl Word for u32 {
    open spec fn width() -> u8 {
        32
    }

    open spec fn value(self) -> int {
        self as int
    }

    open spec fn masked(self, bits: u8) -> u32 {
        self & mask32(bits)
    }

    open spec fn flipped(self, bits: u8) -> u32 {
        self ^ bit32(bits)
    }

    proof fn lemma_masked_twice(self, short: u8, long: u8) {
        assert((self & mask32(long)) & mask32(short) == self & mask32(short)) by (bit_vector)
            requires
                short <= long,
                long <= 32,
        ;
    }

    proof fn lemma_halves(self, bits: u8) {
        let next = (bits + 1) as u8;
        assert(self & mask32(next) == self && (self ^ bit32(next)) & mask32(next) == self ^ bit32(
            next,
        ) && (self ^ bit32(next)) & mask32(bits) == self) by (bit_vector)
            requires
                bits < 32,
                next == bits + 1,
                self & mask32(bits) == self,
        ;
    }

    proof fn lemma_flipped_differs(self, bits: u8) {
        assert(self ^ bit32(bits) != self) by (bit_vector)
            requires
                1 <= bits <= 32,
        ;
    }

    proof fn lemma_split(self, bits: u8) {
        let next = (bits + 1) as u8;
        assert(self & mask32(next) == self & mask32(bits) || self & mask32(next) == (self & mask32(
            bits,
        )) ^ bit32(next)) by (bit_vector)
            requires
                bits < 32,
                next == bits + 1,
        ;
    }
}

/// The 128-bit mask whose leading `bits` bits are set.
pub open spec fn mask128(bits: u8) -> u128 {
    if bits == 0 {
        0u128
    } else if bits >= 128 {
        0xffff_ffff_ffff_ffff_ffff_ffff_ffff_ffffu128
    } else {
        !(0xffff_ffff_ffff_ffff_ffff_ffff_ffff_ffffu128 >> (bits as u128))
    }
}

/// The 128-bit word with only the bit at position `bits` set, counted from
/// the most significant bit, which is position 1.
pub open spec fn bit128(bits: u8) -> u128 {
    if 1 <= bits <= 128 {
        1u128 << ((128 - bits) as u128)
    } else {
        0u128
    }
}

impl Word for u128 {
    open spec fn width() -> u8 {
        128
    }

    open spec fn value(self) -> int {
        self as int
    }

    open spec fn masked(self, bits: u8) -> u128 {
        self & mask128(bits)
    }

    open spec fn flipped(self, bits: u8) -> u128 {
        self ^ bit128(bits)
    }

    proof fn lemma_masked_twice(self, short: u8, long: u8) {
        assert((self & mask128(long)) & mask128(short) == self & mask128(short)) by (bit_vector)
            requires
                short <= long,
                long <= 128,
        ;
    }

    proof fn lemma_halves(self, bits: u8) {
        let next = (bits + 1) as u8;
        assert(self & mask128(next) == self && (self ^ bit128(next)) & mask128(next) == self
            ^ bit128(next) && (self ^ bit128(next)) & mask128(bits) == self) by (bit_vector)
            requires
                bits < 128,
                next == bits + 1,
                self & mask128(bits) == self,
        ;
    }

    proof fn lemma_flipped_differs(self, bits: u8) {
        assert(self ^ bit128(bits) != self) by (bit_vector)
            requires
                1 <= bits <= 128,
        ;
    }

    proof fn lemma_split(self, bits: u8) {
        let next = (bits + 1) as u8;
        assert(self & mask128(next) == self & mask128(bits) || self & mask128(next) == (self
            & mask128(bits)) ^ bit128(next)) by (bit_vector)
            requires
                bits < 128,
                next == bits + 1,
        ;
    }
}

} // verus!
