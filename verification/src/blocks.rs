//! CIDR blocks as pairs of a prefix and a prefix length, lists of them, and
//! the proof that a set of addresses has at most one coalesced list.

use vstd::prelude::*;
use vstd::set_lib::{lemma_int_range, lemma_map_size_bound, set_int_range};
use crate::word::Word;

verus! {

/// The block's length is within the family's width and its prefix has no bit
/// set behind that length.
pub open spec fn valid<W: Word>(block: (W, u8)) -> bool {
    block.1 <= W::width() && block.0.masked(block.1) == block.0
}

/// The address lies in the block: its leading bits are the block's prefix.
pub open spec fn holds<W: Word>(block: (W, u8), addr: W) -> bool {
    addr.masked(block.1) == block.0
}

/// The first block lies in the second.
pub open spec fn within<W: Word>(inner: (W, u8), outer: (W, u8)) -> bool {
    outer.1 <= inner.1 && inner.0.masked(outer.1) == outer.0
}

/// The two blocks are the two halves of a block one bit shorter.
pub open spec fn siblings<W: Word>(one: (W, u8), other: (W, u8)) -> bool {
    one.1 == other.1 && one.1 >= 1 && other.0 == one.0.flipped(one.1)
}

/// The half of a block that keeps its prefix: one bit longer.
pub open spec fn lower_half<W: Word>(block: (W, u8)) -> (W, u8) {
    (block.0, (block.1 + 1) as u8)
}

/// The other half of a block: one bit longer, with that bit set.
pub open spec fn upper_half<W: Word>(block: (W, u8)) -> (W, u8) {
    (block.0.flipped((block.1 + 1) as u8), (block.1 + 1) as u8)
}

/// The address lies in one of the list's blocks.
pub open spec fn covered<W: Word>(list: Seq<(W, u8)>, addr: W) -> bool {
    exists|i: int| 0 <= i < list.len() && holds(#[trigger] list[i], addr)
}

/// The list is coalesced: its blocks are valid, ascend by prefix, share no
/// address, and no two of them could be merged into one.
pub open spec fn canonical<W: Word>(list: Seq<(W, u8)>) -> bool {
    &&& forall|i: int| 0 <= i < list.len() ==> valid(#[trigger] list[i])
    &&& forall|i: int, j: int|
        0 <= i < j < list.len() ==> (#[trigger] list[i]).0.value() < (#[trigger] list[j]).0.value()
    &&& forall|i: int, j: int, addr: W|
        0 <= i < j < list.len() ==> !(#[trigger] holds(list[i], addr) && #[trigger] holds(
            list[j],
            addr,
        ))
    &&& forall|i: int, j: int|
        0 <= i < list.len() && 0 <= j < list.len() ==> !siblings(
            #[trigger] list[i],
            #[trigger] list[j],
        )
}

/// The two lists cover the same addresses.
pub open spec fn same_cover<W: Word>(one: Seq<(W, u8)>, other: Seq<(W, u8)>) -> bool {
    forall|addr: W| covered(one, addr) <==> covered(other, addr)
}

/// The first `i + 1` blocks of a list cover what the first `i` cover and
/// what the block at `i` holds.
pub proof fn lemma_covered_next<W: Word>(list: Seq<(W, u8)>, i: int, addr: W)
    requires
        0 <= i < list.len(),
    ensures
        covered(list.take(i + 1), addr) <==> covered(list.take(i), addr) || holds(list[i], addr),
{
    let shorter = list.take(i);
    let longer = list.take(i + 1);
    if covered(longer, addr) {
        let k = choose|k: int| 0 <= k < longer.len() && holds(#[trigger] longer[k], addr);
        if k < i {
            assert(holds(shorter[k], addr));
        }
    }
    if covered(shorter, addr) {
        let k = choose|k: int| 0 <= k < shorter.len() && holds(#[trigger] shorter[k], addr);
        assert(holds(longer[k], addr));
    }
    if holds(list[i], addr) {
        assert(holds(longer[i], addr));
    }
}

/// A valid block holds its own prefix.
pub proof fn lemma_holds_prefix<W: Word>(block: (W, u8))
    requires
        valid(block),
    ensures
        holds(block, block.0),
{
}

/// An address of a block lies in every block that the block lies in.
pub proof fn lemma_within_holds<W: Word>(inner: (W, u8), outer: (W, u8), addr: W)
    requires
        inner.1 <= W::width(),
        within(inner, outer),
        holds(inner, addr),
    ensures
        holds(outer, addr),
{
    addr.lemma_masked_twice(outer.1, inner.1);
}

/// Lying within is transitive.
pub proof fn lemma_within_trans<W: Word>(a: (W, u8), b: (W, u8), c: (W, u8))
    requires
        a.1 <= W::width(),
        within(a, b),
        within(b, c),
    ensures
        within(a, c),
{
    a.0.lemma_masked_twice(c.1, b.1);
}

/// A block under a coalesced list's cover lies within one block of the list.
pub proof fn lemma_superblock<W: Word>(list: Seq<(W, u8)>, block: (W, u8)) -> (j: int)
    requires
        canonical(list),
        valid(block),
        forall|addr: W| holds(block, addr) ==> covered(list, addr),
    ensures
        0 <= j < list.len(),
        within(block, list[j]),
    decreases W::width() - block.1,
{
    lemma_holds_prefix(block);
    assert(covered(list, block.0));
    let k = choose|k: int| 0 <= k < list.len() && holds(#[trigger] list[k], block.0);
    if list[k].1 <= block.1 {
        k
    } else {
        assert(valid(list[k]));
        let next = (block.1 + 1) as u8;
        let low = (block.0, next);
        let high = (block.0.flipped(next), next);
        block.0.lemma_halves(block.1);
        assert(within(low, block));
        assert(within(high, block));
        assert forall|addr: W| holds(low, addr) implies covered(list, addr) by {
            lemma_within_holds(low, block, addr);
        }
        assert forall|addr: W| holds(high, addr) implies covered(list, addr) by {
            lemma_within_holds(high, block, addr);
        }
        let j0 = lemma_superblock(list, low);
        let j1 = lemma_superblock(list, high);
        if list[j0].1 <= block.1 {
            j0
        } else if list[j1].1 <= block.1 {
            high.0.lemma_masked_twice(list[j1].1, block.1);
            j1
        } else {
            assert(list[j0] == low);
            assert(list[j1] == high);
            assert(siblings(list[j0], list[j1]));
            j0
        }
    }
}

/// Each block of a coalesced list stands in every coalesced list with the
/// same cover.
pub proof fn lemma_shared_block<W: Word>(one: Seq<(W, u8)>, other: Seq<(W, u8)>, i: int) -> (j: int)
    requires
        canonical(one),
        canonical(other),
        same_cover(one, other),
        0 <= i < one.len(),
    ensures
        0 <= j < other.len(),
        other[j] == one[i],
{
    let block = one[i];
    assert(valid(block));
    assert forall|addr: W| holds(block, addr) implies covered(other, addr) by {
        assert(holds(one[i], addr));
        assert(covered(one, addr));
    }
    let j = lemma_superblock(other, block);
    let outer = other[j];
    assert(valid(outer));
    assert forall|addr: W| holds(outer, addr) implies covered(one, addr) by {
        assert(holds(other[j], addr));
        assert(covered(other, addr));
    }
    let m = lemma_superblock(one, outer);
    lemma_within_trans(block, outer, one[m]);
    lemma_holds_prefix(block);
    assert(holds(one[m], block.0));
    assert(holds(one[i], block.0));
    assert(m == i);
    j
}

/// Two lists that ascend strictly and hold the same blocks are one list.
pub proof fn lemma_ascending_equal<W: Word>(one: Seq<(W, u8)>, other: Seq<(W, u8)>)
    requires
        forall|i: int, j: int|
            0 <= i < j < one.len() ==> (#[trigger] one[i]).0.value() < (#[trigger] one[j]).0.value(),
        forall|i: int, j: int|
            0 <= i < j < other.len() ==> (#[trigger] other[i]).0.value() < (
            #[trigger] other[j]).0.value(),
        forall|i: int| 0 <= i < one.len() ==> other.contains(#[trigger] one[i]),
        forall|j: int| 0 <= j < other.len() ==> one.contains(#[trigger] other[j]),
    ensures
        one == other,
    decreases one.len(),
{
    if one.len() == 0 {
        if other.len() > 0 {
            assert(one.contains(other[0]));
        }
        assert(one =~= other);
    } else {
        assert(other.contains(one[0]));
        let j = choose|j: int| 0 <= j < other.len() && other[j] == one[0];
        assert(one.contains(other[0]));
        let i = choose|i: int| 0 <= i < one.len() && one[i] == other[0];
        assert(i == 0) by {
            if i > 0 {
                assert(one[0].0.value() < one[i].0.value());
                if j > 0 {
                    assert(other[0].0.value() < other[j].0.value());
                }
            }
        }
        let rest = one.drop_first();
        let other_rest = other.drop_first();
        assert forall|k: int| 0 <= k < rest.len() implies other_rest.contains(
            #[trigger] rest[k],
        ) by {
            assert(other.contains(one[k + 1]));
            let m = choose|m: int| 0 <= m < other.len() && other[m] == one[k + 1];
            assert(one[0].0.value() < one[k + 1].0.value());
            assert(m > 0);
            assert(other_rest[m - 1] == rest[k]);
        }
        assert forall|k: int| 0 <= k < other_rest.len() implies rest.contains(
            #[trigger] other_rest[k],
        ) by {
            assert(one.contains(other[k + 1]));
            let m = choose|m: int| 0 <= m < one.len() && one[m] == other[k + 1];
            assert(other[0].0.value() < other[k + 1].0.value());
            assert(m > 0);
            assert(rest[m - 1] == other_rest[k]);
        }
        assert forall|a: int, b: int| 0 <= a < b < rest.len() implies (#[trigger] rest[a]).0.value()
            < (#[trigger] rest[b]).0.value() by {
            assert(one[a + 1].0.value() < one[b + 1].0.value());
        }
        assert forall|a: int, b: int| 0 <= a < b < other_rest.len() implies (
        #[trigger] other_rest[a]).0.value() < (#[trigger] other_rest[b]).0.value() by {
            assert(other[a + 1].0.value() < other[b + 1].0.value());
        }
        lemma_ascending_equal(rest, other_rest);
        assert(one =~= seq![one[0]] + rest);
        assert(other =~= seq![other[0]] + other_rest);
    }
}

/// The two halves of a block are valid blocks and siblings, and an address
/// lies in the block if and only if it lies in one of them.
pub proof fn lemma_halves_cover<W: Word>(block: (W, u8), addr: W)
    requires
        valid(block),
        block.1 < W::width(),
    ensures
        valid(lower_half(block)),
        valid(upper_half(block)),
        siblings(lower_half(block), upper_half(block)),
        holds(block, addr) <==> holds(lower_half(block), addr) || holds(upper_half(block), addr),
{
    block.0.lemma_halves(block.1);
    addr.lemma_split(block.1);
    if holds(lower_half(block), addr) {
        lemma_within_holds(lower_half(block), block, addr);
    }
    if holds(upper_half(block), addr) {
        lemma_within_holds(upper_half(block), block, addr);
    }
}

/// A valid block alone is a coalesced list.
pub proof fn lemma_single_canonical<W: Word>(block: (W, u8))
    requires
        valid(block),
    ensures
        canonical(seq![block]),
{
    if block.1 >= 1 {
        block.0.lemma_flipped_differs(block.1);
    }
}

/// The coalesced list of the addresses of one block is that block alone.
pub proof fn lemma_single_block<W: Word>(list: Seq<(W, u8)>, block: (W, u8))
    requires
        canonical(list),
        valid(block),
        forall|addr: W| covered(list, addr) <==> holds(block, addr),
    ensures
        list == seq![block],
{
    let single = seq![block];
    lemma_single_canonical(block);
    assert forall|addr: W| covered(single, addr) <==> holds(block, addr) by {
        if holds(block, addr) {
            assert(holds(single[0], addr));
        }
    }
    lemma_canonical_unique(list, single);
}

/// The coalesced list of no address is the empty list.
pub proof fn lemma_no_block<W: Word>(list: Seq<(W, u8)>)
    requires
        canonical(list),
        forall|addr: W| !covered(list, addr),
    ensures
        list == Seq::<(W, u8)>::empty(),
{
    if list.len() > 0 {
        lemma_holds_prefix(list[0]);
        assert(covered(list, list[0].0));
    }
    assert(list =~= Seq::<(W, u8)>::empty());
}

/// A set of addresses has one coalesced list at most: two coalesced lists
/// with the same cover are equal, block for block.
pub proof fn lemma_canonical_unique<W: Word>(one: Seq<(W, u8)>, other: Seq<(W, u8)>)
    requires
        canonical(one),
        canonical(other),
        same_cover(one, other),
    ensures
        one == other,
{
    assert forall|i: int| 0 <= i < one.len() implies other.contains(#[trigger] one[i]) by {
        let j = lemma_shared_block(one, other, i);
    }
    assert forall|j: int| 0 <= j < other.len() implies one.contains(#[trigger] other[j]) by {
        let i = lemma_shared_block(other, one, j);
    }
    lemma_ascending_equal(one, other);
}

/// A coalesced list is as short as a list can be: no list of valid blocks
/// with the same cover has fewer blocks.
pub proof fn lemma_canonical_shortest<W: Word>(list: Seq<(W, u8)>, other: Seq<(W, u8)>)
    requires
        canonical(list),
        forall|j: int| 0 <= j < other.len() ==> valid(#[trigger] other[j]),
        same_cover(list, other),
    ensures
        list.len() <= other.len(),
{
    let home = |j: int| choose|m: int| 0 <= m < list.len() && within(other[j], #[trigger] list[m]);
    let from = set_int_range(0, other.len() as int);
    let to = set_int_range(0, list.len() as int);
    assert forall|j: int| 0 <= j < other.len() implies 0 <= #[trigger] home(j) < list.len()
        && within(other[j], list[home(j)]) by {
        assert forall|addr: W| holds(other[j], addr) implies covered(list, addr) by {
            assert(covered(other, addr));
        }
        let m = lemma_superblock(list, other[j]);
    }
    assert forall|m: int| to.contains(m) implies from.map(home).contains(m) by {
        lemma_holds_prefix(list[m]);
        assert(covered(list, list[m].0));
        let j = choose|j: int| 0 <= j < other.len() && holds(#[trigger] other[j], list[m].0);
        lemma_within_holds(other[j], list[home(j)], list[m].0);
        assert(home(j) == m);
        assert(from.contains(j));
    }
    assert(from.map(home) =~= to);
    lemma_int_range(0, other.len() as int);
    lemma_int_range(0, list.len() as int);
    lemma_map_size_bound(from, to, home);
}

} // verus!
